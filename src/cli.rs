//! Checks on the values that the command line hands to the library.
use vstd::prelude::*;

verus! {

/// The dithering strategy to use.
#[derive(Debug, Clone, Copy, PartialEq, Eq, Structural)]
pub enum DitheringOption {
    /// The Sierra two-row error diffusion.
    Sierra2,
    /// Ordered dithering with the 4 by 4 Bayer matrix.
    Bayer4x4,
    /// Ordered dithering with the 2 by 2 Bayer matrix.
    Bayer2x2,
    /// No dithering: a plain threshold.
    Threshold,
}

impl Default for DitheringOption {
    fn default() -> (r: Self)
        ensures
            r == DitheringOption::Sierra2,
    {
        DitheringOption::Sierra2
    }
}

/// Whether `s` is one or more ASCII digits.
pub open spec fn is_digits(s: Seq<char>) -> bool {
    s.len() > 0 && forall|i: int| 0 <= i < s.len() ==> '0' <= #[trigger] s[i] <= '9'
}

/// The number that the decimal digits `s` write.
pub open spec fn decimal_value(s: Seq<char>) -> int
    decreases s.len(),
{
    if s.len() == 0 {
        0
    } else {
        decimal_value(s.drop_last()) * 10 + (s.last() as int - '0' as int)
    }
}

/// The `u32` that `s` writes in decimal, with an optional leading `+`; `None`
/// where `s` writes no number or one above `u32::MAX`.
pub open spec fn parsed_u32(s: Seq<char>) -> Option<u32> {
    let digits = if s.len() > 0 && s[0] == '+' {
        s.drop_first()
    } else {
        s
    };
    if is_digits(digits) && decimal_value(digits) <= u32::MAX {
        Some(decimal_value(digits) as u32)
    } else {
        None
    }
}

/// Relies on `str::parse::<u32>`: an optional `+` then decimal digits, with
/// no other character, that write a number no greater than `u32::MAX`.
#[verifier::external_body]
fn parse_u32(s: &str) -> (r: Option<u32>)
    ensures
        r == parsed_u32(s@),
{
    s.parse::<u32>().ok()
}

/// A size given on the command line: a positive decimal integer.
pub fn validate_greater_than_zero(val: &str) -> (r: Result<u32, &'static str>)
    ensures
        match parsed_u32(val@) {
            Some(v) => if v > 0 {
                r == Ok::<u32, &'static str>(v)
            } else {
                r is Err && r->Err_0@ == "this argument cannot be 0"@
            },
            None => r is Err && r->Err_0@ == "must be a positive integer"@,
        },
{
    match parse_u32(val) {
        Some(o) => {
            if o > 0 {
                Ok(o)
            } else {
                Err("this argument cannot be 0")
            }
        },
        None => Err("must be a positive integer"),
    }
}

/// Where the image to render comes from.
#[derive(Debug, Clone, Copy, PartialEq, Eq, Structural)]
pub enum InputKind {
    /// Standard input, named by `-`.
    Stdin,
    /// A local file.
    File,
    /// An http or https URL.
    Url,
}

/// `c` in lower case, where it is an ASCII capital letter.
pub open spec fn ascii_lower(c: char) -> char {
    if 'A' <= c <= 'Z' {
        ((c as u32) + 32) as char
    } else {
        c
    }
}

/// Whether `s`, with ASCII letters in lower case, is `t`.
pub open spec fn equals_ignoring_case(s: Seq<char>, t: Seq<char>) -> bool {
    s.map_values(|c: char| ascii_lower(c)) == t
}

/// Whether `c` in lower case is `d`, where `d` is not an ASCII capital.
fn char_matches(c: char, d: char) -> (r: bool)
    requires
        !('A' <= d <= 'Z'),
    ensures
        r == (ascii_lower(c) == d),
{
    if 'A' <= c && c <= 'Z' {
        c as u32 + 32 == d as u32
    } else {
        c == d
    }
}

/// Whether `s`, with ASCII letters in lower case, is `t`, which holds no
/// ASCII capital.
fn lower_equals(s: &str, t: &str) -> (r: bool)
    requires
        forall|i: int| 0 <= i < t@.len() ==> !('A' <= #[trigger] t@[i] <= 'Z'),
    ensures
        r == equals_ignoring_case(s@, t@),
{
    let n = s.unicode_len();
    if n != t.unicode_len() {
        assert(s@.map_values(|c: char| ascii_lower(c)).len() != t@.len());
        return false;
    }
    let mut i: usize = 0;
    while i < n
        invariant
            i <= n,
            n == s@.len(),
            n == t@.len(),
            forall|i: int| 0 <= i < t@.len() ==> !('A' <= #[trigger] t@[i] <= 'Z'),
            forall|j: int| 0 <= j < i ==> ascii_lower(#[trigger] s@[j]) == t@[j],
        decreases n - i,
    {
        if !char_matches(s.get_char(i), t.get_char(i)) {
            assert(s@.map_values(|c: char| ascii_lower(c))[i as int] != t@[i as int]);
            return false;
        }
        i += 1;
    }
    assert(s@.map_values(|c: char| ascii_lower(c)) =~= t@);
    true
}

/// Where the input named `val` is read from, given whether a path of that
/// name exists and is a file, and the scheme of `val` read as a URL (`None`
/// where it is none); or why it cannot be.
pub open spec fn mode_of(val: Seq<char>, exists: bool, is_file: bool, scheme: Option<Seq<char>>) -> Result<
    InputKind,
    Seq<char>,
> {
    if val == "-"@ {
        Ok(InputKind::Stdin)
    } else if exists && is_file {
        Ok(InputKind::File)
    } else if exists {
        Err("the given path exists but is not a file"@)
    } else {
        match scheme {
            Some(s) => if equals_ignoring_case(s, "http"@) || equals_ignoring_case(s, "https"@) {
                Ok(InputKind::Url)
            } else {
                Err("the given URL must be either http or https"@)
            },
            None => Err("the given input was not a valid argument"@),
        }
    }
}

/// `r` with its error message as characters.
pub open spec fn chars_of_error(r: Result<InputKind, &str>) -> Result<InputKind, Seq<char>> {
    match r {
        Ok(k) => Ok(k),
        Err(e) => Err(e@),
    }
}

/// The characters of `s`, if any.
pub open spec fn chars_of(s: Option<&str>) -> Option<Seq<char>> {
    match s {
        Some(t) => Some(t@),
        None => None,
    }
}

/// The scheme of `s` read as an absolute URL; `None` where `s` is none.
pub uninterp spec fn url_scheme_of(s: Seq<char>) -> Option<Seq<char>>;

/// Relies on `reqwest::Url`'s parser (the `url` crate): whether `s` is an
/// absolute URL, and its scheme, depend on `s` alone.
#[verifier::external_body]
fn url_scheme(s: &str) -> (r: Option<String>)
    ensures
        match r {
            Some(t) => url_scheme_of(s@) == Some(t@),
            None => url_scheme_of(s@) is None,
        },
{
    match reqwest::Url::parse(s) {
        Ok(url) => Some(url.scheme().to_string()),
        Err(_) => None,
    }
}

/// Where the input named `val` is to be read from, given whether a path of
/// that name exists and is a file, and the scheme of `val` read as a URL.
pub fn input_kind(val: &str, exists: bool, is_file: bool, url_scheme: Option<&str>) -> (r: Result<
    InputKind,
    &'static str,
>)
    ensures
        chars_of_error(r) == mode_of(val@, exists, is_file, chars_of(url_scheme)),
{
    proof {
        reveal_strlit("-");
        reveal_strlit("http");
        reveal_strlit("https");
    }
    if val.unicode_len() == 1 && val.get_char(0) == '-' {
        assert(val@ =~= "-"@);
        return Ok(InputKind::Stdin);
    }
    assert(val@ != "-"@);
    if exists && is_file {
        return Ok(InputKind::File);
    } else if exists {
        return Err("the given path exists but is not a file");
    }
    match url_scheme {
        Some(scheme) => {
            if lower_equals(scheme, "http") || lower_equals(scheme, "https") {
                Ok(InputKind::Url)
            } else {
                Err("the given URL must be either http or https")
            }
        },
        None => Err("the given input was not a valid argument"),
    }
}

/// Where the input named `val` is to be read from, given whether a path of
/// that name exists and is a file; a name that is no path is read as a URL.
pub fn parse_mode(val: &str, exists: bool, is_file: bool) -> (r: Result<InputKind, &'static str>)
    ensures
        chars_of_error(r) == mode_of(val@, exists, is_file, url_scheme_of(val@)),
{
    let scheme = url_scheme(val);
    match &scheme {
        Some(t) => input_kind(val, exists, is_file, Some(t.as_str())),
        None => input_kind(val, exists, is_file, None),
    }
}

} // verus!
