use vstd::prelude::*;
use vstd::string::StringExecFns;

verus! {

/// `regex::Regex`, carried through as an opaque value.
#[verifier::external_type_specification]
#[verifier::external_body]
pub struct ExRegex(regex::Regex);

/// `regex::Error`, carried through as an opaque value.
#[verifier::external_type_specification]
#[verifier::external_body]
pub struct ExRegexError(regex::Error);

/// Whether the regular expression `pattern` (in the syntax of the `regex`
/// crate) matches somewhere in `haystack`.
pub uninterp spec fn regex_matches(pattern: Seq<char>, haystack: Seq<char>) -> bool;

/// A compiled regular expression together with its source text.
pub struct FilePattern {
    source: String,
    re: regex::Regex,
}

impl View for FilePattern {
    type V = Seq<char>;

    closed spec fn view(&self) -> Seq<char> {
        self.source@
    }
}

/// Compiles `pattern` with `regex::Regex::new`. The contract claims only that
/// a compiled pattern keeps `pattern` as its source. Whether compilation
/// succeeds is left unsaid: besides the syntax, `regex` refuses a pattern whose
/// compiled size passes a default limit, and that size is measured in memory
/// and so depends on the machine. When compilation fails the `regex` crate's
/// error is handed back.
#[verifier::external_body]
fn compile_pattern(pattern: &str) -> (r: Result<FilePattern, regex::Error>)
    ensures
        r matches Ok(p) ==> p@ == pattern@,
{
    match regex::Regex::new(pattern) {
        Ok(re) => Ok(FilePattern { source: pattern.to_string(), re }),
        Err(e) => Err(e),
    }
}

/// Runs `regex::Regex::is_match`: whether the pattern matches anywhere in
/// `haystack`. The contract names the answer `regex_matches` of the pattern's
/// source and the haystack: the same pattern and text always give the same
/// answer. For the library's two name patterns it also states the answer, as
/// the `regex` crate's syntax documentation gives it: `^` and `$` match only
/// at the beginning and the end of the haystack (multi-line mode is off unless
/// asked for), a bracket class matches one character of the listed ranges and
/// characters, `+` repeats it one or more times, `\.` is a literal `.`, `?`
/// makes the group before it optional, and an unanchored pattern may match
/// anywhere. So the image pattern matches exactly the non-empty haystacks made
/// only of the listed characters, and the schematic pattern matches exactly
/// the haystacks in which one of the listed characters is directly followed
/// by `.schem` (the longest such run and the optional `atic` only lengthen the
/// match).
#[verifier::external_body]
fn pattern_is_match(p: &FilePattern, haystack: &str) -> (r: bool)
    ensures
        r == regex_matches(p@, haystack@),
        p@ == "^[a-zA-Z0-9_.]+$"@ ==> (r <==> plain_file_name(haystack@)),
        p@ == "[a-zA-Z0-9_.]+\\.schem(atic)?"@ ==> (r <==> schematic_name_ok(haystack@)),
{
    p.re.is_match(haystack)
}

/// Why a file name is refused.
#[derive(Clone, Copy, Debug, PartialEq, Eq, Structural)]
pub enum NameError {
    /// The name does not have the required form.
    Invalid,
    /// The name pattern itself did not compile.
    BadPattern,
}

/// Schematic names must contain a run of letters, digits, `_` or `.`
/// followed by `.schem` or `.schematic`.
pub open spec fn schematic_pattern() -> Seq<char> {
    "[a-zA-Z0-9_.]+\\.schem(atic)?"@
}

/// Image names must consist only of letters, digits, `_` and `.`.
pub open spec fn image_pattern() -> Seq<char> {
    "^[a-zA-Z0-9_.]+$"@
}

/// An ASCII letter, an ASCII digit, `_` or `.`.
pub open spec fn plain_name_char(c: char) -> bool {
    ||| ('a' as u32) <= (c as u32) <= ('z' as u32)
    ||| ('A' as u32) <= (c as u32) <= ('Z' as u32)
    ||| ('0' as u32) <= (c as u32) <= ('9' as u32)
    ||| c == '_'
    ||| c == '.'
}

/// Position `i` of `s` holds a letter, digit, `_` or `.` directly followed
/// by `.schem`.
pub open spec fn schem_at(s: Seq<char>, i: int) -> bool {
    &&& 0 <= i
    &&& i + 7 <= s.len()
    &&& plain_name_char(s[i])
    &&& s[i + 1] == '.'
    &&& s[i + 2] == 's'
    &&& s[i + 3] == 'c'
    &&& s[i + 4] == 'h'
    &&& s[i + 5] == 'e'
    &&& s[i + 6] == 'm'
}

/// A schematic name somewhere holds a non-empty run of ASCII letters, digits,
/// `_` or `.` directly followed by `.schem` (which `.schematic` begins with).
pub open spec fn schematic_name_ok(s: Seq<char>) -> bool {
    exists|i: int| #[trigger] schem_at(s, i)
}

/// A non-empty name made only of ASCII letters, digits, `_` and `.`: in
/// particular it holds no path separator.
pub open spec fn plain_file_name(s: Seq<char>) -> bool {
    &&& s.len() > 0
    &&& forall|i: int| 0 <= i < s.len() ==> plain_name_char(#[trigger] s[i])
}

/// Whether `name` matches `pattern`; `None` when the pattern does not compile
/// (which the `regex` crate decides, see `compile_pattern`).
fn matches_pattern(pattern: &str, name: &str) -> (r: Option<bool>)
    ensures
        r matches Some(b) ==> b == regex_matches(pattern@, name@),
        r matches Some(b) ==> (pattern@ == "^[a-zA-Z0-9_.]+$"@ ==> (b <==> plain_file_name(name@))),
        r matches Some(b) ==> (pattern@ == "[a-zA-Z0-9_.]+\\.schem(atic)?"@ ==> (b <==> schematic_name_ok(name@))),
{
    match compile_pattern(pattern) {
        Ok(p) => Some(pattern_is_match(&p, name)),
        Err(_) => None,
    }
}

/// The stored name of a schematic, given whether `name` matched the schematic
/// name pattern: refused when it did not, otherwise `name` placed under the
/// owner's folder when there is one (`owner/name`).
pub fn schematic_file_name(name: &str, matched: bool, owner: Option<&str>) -> (r: Result<String, NameError>)
    ensures
        !matched ==> r == Err::<String, NameError>(NameError::Invalid),
        matched ==> r is Ok && r->Ok_0@ == match owner {
            Some(o) => o@ + "/"@ + name@,
            None => name@,
        },
{
    if !matched {
        return Err(NameError::Invalid);
    }
    match owner {
        Some(o) => {
            let mut s = String::from_str(o);
            s.append("/");
            s.append(name);
            Ok(s)
        },
        None => Ok(String::from_str(name)),
    }
}

/// Checks a schematic name against the schematic name pattern and, when it
/// matches, gives its stored name (under the owner's folder when there is one).
pub fn prepare_schematic_name(name: &str, owner: Option<&str>) -> (r: Result<String, NameError>)
    ensures
        r != Err::<String, NameError>(NameError::BadPattern) ==> (r is Ok <==> regex_matches(schematic_pattern(), name@)),
        r != Err::<String, NameError>(NameError::BadPattern) ==> (r is Ok <==> schematic_name_ok(name@)),
        r is Err ==> r == Err::<String, NameError>(NameError::Invalid) || r == Err::<String, NameError>(NameError::BadPattern),
        r is Ok ==> r->Ok_0@ == match owner {
            Some(o) => o@ + "/"@ + name@,
            None => name@,
        },
{
    let pattern = "[a-zA-Z0-9_.]+\\.schem(atic)?";
    match matches_pattern(pattern, name) {
        Some(matched) => schematic_file_name(name, matched, owner),
        None => Err(NameError::BadPattern),
    }
}

/// The verdict on an image file name, given whether it matched the image name pattern.
pub fn image_name_verdict(matched: bool) -> (r: Result<(), NameError>)
    ensures
        matched ==> r is Ok,
        !matched ==> r == Err::<(), NameError>(NameError::Invalid),
{
    if matched { Ok(()) } else { Err(NameError::Invalid) }
}

/// Checks an image file name: only letters, digits, `_` and `.`, so no path
/// separator can lead out of the images folder.
pub fn check_image_name(name: &str) -> (r: Result<(), NameError>)
    ensures
        r != Err::<(), NameError>(NameError::BadPattern) ==> (r is Ok <==> regex_matches(image_pattern(), name@)),
        r != Err::<(), NameError>(NameError::BadPattern) ==> (r is Ok <==> plain_file_name(name@)),
        r is Ok ==> !name@.contains('/') && !name@.contains('\\'),
        r is Err ==> r == Err::<(), NameError>(NameError::Invalid) || r == Err::<(), NameError>(NameError::BadPattern),
{
    let pattern = "^[a-zA-Z0-9_.]+$";
    match matches_pattern(pattern, name) {
        Some(matched) => image_name_verdict(matched),
        None => Err(NameError::BadPattern),
    }
}

/// Whatever comes before and after it, a name that holds an ASCII letter,
/// digit, `_` or `.` directly followed by `.schem` has the schematic form, and
/// a name too short to hold one does not.
pub proof fn law_schematic_names_by_extension(before: Seq<char>, c: char, after: Seq<char>)
    requires
        plain_name_char(c),
    ensures
        schematic_name_ok(before + seq![c, '.', 's', 'c', 'h', 'e', 'm'] + after),
        before.len() < 7 ==> !schematic_name_ok(before),
{
    let name = before + seq![c, '.', 's', 'c', 'h', 'e', 'm'] + after;
    assert(schem_at(name, before.len() as int));
}

} // verus!
