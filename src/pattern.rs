//! Compiled regular expressions, held together with the text they were
//! compiled from so that contracts can speak of that text.
use vstd::prelude::*;
use vstd::string::StringSliceAdditionalSpecFns;

verus! {

#[verifier::external_type_specification]
#[verifier::external_body]
pub struct ExRegex(regex::Regex);

#[verifier::external_type_specification]
#[verifier::external_body]
pub struct ExFancyRegex(fancy_regex::Regex);

/// Whether `regex::Regex::new` accepts a pattern.
pub uninterp spec fn regex_compiles(pattern: Seq<char>) -> bool;

/// What `regex::Regex::is_match` answers for a pattern and a haystack.
pub uninterp spec fn regex_is_match(pattern: Seq<char>, text: Seq<char>) -> bool;

/// The byte ranges that `regex::Regex::find_iter` yields, in order.
pub uninterp spec fn regex_find_all(pattern: Seq<char>, text: Seq<char>) -> Seq<(usize, usize)>;

/// Whether `fancy_regex::Regex::new` accepts a pattern.
pub uninterp spec fn fancy_compiles(pattern: Seq<char>) -> bool;

/// What `fancy_regex::Regex::is_match` returns for a pattern and a haystack.
pub uninterp spec fn fancy_is_match(pattern: Seq<char>, text: Seq<char>) -> Result<bool, Seq<char>>;

/// What `fancy_regex::Regex::captures` returns on the text from byte `start`
/// on: for the first match, the byte range of every group (group 0 being the
/// whole match) counted from `start`, or the error text.
pub uninterp spec fn fancy_captures(pattern: Seq<char>, text: Seq<char>, start: int) -> Result<
    Option<Seq<Option<(usize, usize)>>>,
    Seq<char>,
>;

/// A pattern of the `regex` crate, with its source text.
pub struct Pattern {
    source: String,
    re: regex::Regex,
}

impl View for Pattern {
    type V = Seq<char>;

    closed spec fn view(&self) -> Seq<char> {
        self.source@
    }
}

/// A pattern of the `fancy_regex` crate (lookaround, backreferences), with
/// its source text.
pub struct FancyPattern {
    source: String,
    re: fancy_regex::Regex,
}

impl View for FancyPattern {
    type V = Seq<char>;

    closed spec fn view(&self) -> Seq<char> {
        self.source@
    }
}

impl Pattern {
    /// The pattern compiled from `source`, or why it does not compile.
    pub fn new(source: &str) -> (r: Result<Pattern, String>)
        ensures
            r is Ok <==> regex_compiles(source@),
            r matches Ok(p) ==> p@ == source@,
    {
        compile(source)
    }
}

impl FancyPattern {
    /// The pattern compiled from `source`, or why it does not compile.
    pub fn new(source: &str) -> (r: Result<FancyPattern, String>)
        ensures
            r is Ok <==> fancy_compiles(source@),
            r matches Ok(p) ==> p@ == source@,
    {
        compile_fancy(source)
    }
}

/// True when `start..end` are byte offsets of char boundaries of `text`.
pub open spec fn is_byte_range_of(text: Seq<char>, start: int, end: int) -> bool {
    let b = vstd::utf8::encode_utf8(text);
    &&& 0 <= start <= end <= b.len()
    &&& vstd::utf8::is_char_boundary(b, start)
    &&& vstd::utf8::is_char_boundary(b, end)
}

/// True when the ranges are in order, do not overlap and each lies on char
/// boundaries of `text`.
pub open spec fn are_match_ranges_of(ms: Seq<(usize, usize)>, text: Seq<char>) -> bool {
    &&& forall|i: int| 0 <= i < ms.len() ==> is_byte_range_of(text, ms[i].0 as int, ms[i].1 as int)
    &&& forall|i: int| 0 <= i < ms.len() - 1 ==> ms[i].1 <= ms[i + 1].0
}

/// Relies on `regex::Regex::new`: it either compiles the pattern or reports
/// why it cannot.
#[verifier::external_body]
pub(crate) fn compile(source: &str) -> (r: Result<Pattern, String>)
    ensures
        r is Ok <==> regex_compiles(source@),
        r matches Ok(p) ==> p@ == source@,
{
    match regex::Regex::new(source) {
        Ok(re) => Ok(Pattern { source: source.to_string(), re }),
        Err(e) => Err(e.to_string()),
    }
}

/// Relies on `regex::Regex::is_match`.
#[verifier::external_body]
pub(crate) fn is_match(p: &Pattern, text: &str) -> (r: bool)
    ensures
        r == regex_is_match(p@, text@),
{
    p.re.is_match(text)
}

/// Relies on `regex::Regex::find_iter`: successive non-overlapping matches,
/// each a byte range on char boundaries of the haystack.
#[verifier::external_body]
pub(crate) fn find_all(p: &Pattern, text: &str) -> (r: Vec<(usize, usize)>)
    ensures
        r@ == regex_find_all(p@, text@),
        are_match_ranges_of(r@, text@),
{
    p.re.find_iter(text).map(|m| (m.start(), m.end())).collect()
}

/// Relies on `fancy_regex::Regex::new`.
#[verifier::external_body]
pub(crate) fn compile_fancy(source: &str) -> (r: Result<FancyPattern, String>)
    ensures
        r is Ok <==> fancy_compiles(source@),
        r matches Ok(p) ==> p@ == source@,
{
    match fancy_regex::Regex::new(source) {
        Ok(re) => Ok(FancyPattern { source: source.to_string(), re }),
        Err(e) => Err(e.to_string()),
    }
}

/// Relies on `fancy_regex::Regex::is_match`; it fails only when the
/// backtracking limit is hit.
#[verifier::external_body]
pub(crate) fn fancy_match(p: &FancyPattern, text: &str) -> (r: Result<bool, String>)
    ensures
        match r {
            Ok(b) => fancy_is_match(p@, text@) == Ok::<bool, Seq<char>>(b),
            Err(e) => fancy_is_match(p@, text@) == Err::<bool, Seq<char>>(e@),
        },
{
    p.re.is_match(text).map_err(|e| e.to_string())
}

/// Relies on `fancy_regex::Regex::captures`, run on `text[start..]`: group 0
/// is the whole match and is always present; every group that took part is a
/// range of that suffix on char boundaries.
#[verifier::external_body]
pub(crate) fn fancy_capture_at(p: &FancyPattern, text: &str, start: usize) -> (r: Result<
    Option<Vec<Option<(usize, usize)>>>,
    String,
>)
    requires
        vstd::utf8::is_char_boundary(text.spec_bytes(), start as int),
    ensures
        match r {
            Ok(None) => fancy_captures(p@, text@, start as int) == Ok::<_, Seq<char>>(
                None::<Seq<Option<(usize, usize)>>>,
            ),
            Ok(Some(g)) => {
                &&& fancy_captures(p@, text@, start as int) == Ok::<_, Seq<char>>(Some(g@))
                &&& g@.len() >= 1
                &&& g@[0] is Some
                &&& forall|i: int|
                    0 <= i < g@.len() && #[trigger] g@[i] is Some ==> is_byte_range_of(
                        text@,
                        start + (g@[i]->0).0,
                        start + (g@[i]->0).1,
                    )
            },
            Err(e) => fancy_captures(p@, text@, start as int) == Err::<
                Option<Seq<Option<(usize, usize)>>>,
                Seq<char>,
            >(e@),
        },
{
    match p.re.captures(&text[start..]) {
        Ok(Some(caps)) => Ok(Some(caps.iter().map(|g| g.map(|m| (m.start(), m.end()))).collect())),
        Ok(None) => Ok(None),
        Err(e) => Err(e.to_string()),
    }
}

} // verus!
