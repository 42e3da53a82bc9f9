//! Package-identifier (purl-style) parsing and serialization.
//!
//! An identifier string has the shape
//! `pkg:type/namespace/name@version?key=value&...#subpath`, where namespace,
//! version, qualifiers and subpath are optional.  Parsing splits the string
//! into its components without percent-decoding them; percent escapes are
//! validated (`%` must introduce two hexadecimal digits) and kept as written.

use vstd::prelude::*;
use vstd::seq_lib::*;

verus! {

/// Why an identifier string was rejected.
#[derive(Clone, Copy, Debug, PartialEq, Eq, Structural)]
pub enum ParseError {
    /// The string does not begin with the `pkg:` scheme.
    InvalidScheme,
    /// A `%` is not followed by two hexadecimal digits.
    InvalidPercentEncoding,
    /// A `#` introduces an empty subpath.
    EmptySubpath,
    /// A `?` introduces no qualifiers, a pair lacks `=`, or a key is empty.
    InvalidQualifier,
    /// An `@` after the final `/` introduces an empty version.
    EmptyVersion,
    /// The package type is empty or holds a character outside its alphabet.
    InvalidType,
    /// There is no non-empty name component.
    MissingName,
}

impl ParseError {
    /// The human-readable cause of the rejection.
    pub fn message(&self) -> (r: &'static str)
        ensures
            r@ == match *self {
                ParseError::InvalidScheme => "identifier does not start with the pkg scheme"@,
                ParseError::InvalidPercentEncoding => "percent sign without two hexadecimal digits"@,
                ParseError::EmptySubpath => "subpath separator with an empty subpath"@,
                ParseError::InvalidQualifier => "qualifier is empty, lacks a separator or has an empty key"@,
                ParseError::EmptyVersion => "version separator with an empty version"@,
                ParseError::InvalidType => "package type is empty or holds an invalid character"@,
                ParseError::MissingName => "identifier has no non-empty name component"@,
            },
    {
        match self {
            ParseError::InvalidScheme => "identifier does not start with the pkg scheme",
            ParseError::InvalidPercentEncoding => "percent sign without two hexadecimal digits",
            ParseError::EmptySubpath => "subpath separator with an empty subpath",
            ParseError::InvalidQualifier => "qualifier is empty, lacks a separator or has an empty key",
            ParseError::EmptyVersion => "version separator with an empty version",
            ParseError::InvalidType => "package type is empty or holds an invalid character",
            ParseError::MissingName => "identifier has no non-empty name component",
        }
    }
}

/// One `key=value` qualifier, in document order.
#[derive(Clone, Debug, PartialEq, Eq)]
pub struct PackageQualifierInputSpec {
    pub key: String,
    pub value: String,
}

impl View for PackageQualifierInputSpec {
    type V = (Seq<char>, Seq<char>);

    open spec fn view(&self) -> (Seq<char>, Seq<char>) {
        (self.key@, self.value@)
    }
}

/// The canonical parsed form of a package identifier, shaped as the query
/// service's package input.
#[derive(Clone, Debug, PartialEq, Eq)]
pub struct PkgInputSpec {
    pub type_: String,
    pub namespace: Option<String>,
    pub name: String,
    pub version: Option<String>,
    pub subpath: Option<String>,
    /// `None` when the identifier has no qualifiers at all; never `Some` of
    /// an empty list.
    pub qualifiers: Option<Vec<PackageQualifierInputSpec>>,
}

/// The mathematical value of a parsed identifier.
#[verifier::ext_equal]
pub struct PurlParts {
    pub ty: Seq<char>,
    pub namespace: Option<Seq<char>>,
    pub name: Seq<char>,
    pub version: Option<Seq<char>>,
    pub subpath: Option<Seq<char>>,
    pub qualifiers: Option<Seq<(Seq<char>, Seq<char>)>>,
}

impl View for PkgInputSpec {
    type V = PurlParts;

    open spec fn view(&self) -> PurlParts {
        PurlParts {
            ty: self.type_@,
            namespace: match self.namespace {
                Option::Some(ref s) => Option::Some(s@),
                Option::None => Option::None,
            },
            name: self.name@,
            version: match self.version {
                Option::Some(ref s) => Option::Some(s@),
                Option::None => Option::None,
            },
            subpath: match self.subpath {
                Option::Some(ref s) => Option::Some(s@),
                Option::None => Option::None,
            },
            qualifiers: match self.qualifiers {
                Option::Some(ref q) => Option::Some(
                    q@.map_values(|p: PackageQualifierInputSpec| p@),
                ),
                Option::None => Option::None,
            },
        }
    }
}

/// `0`-`9`, `a`-`f` or `A`-`F`.
pub open spec fn is_hex_digit(c: char) -> bool {
    ||| '0' as u32 <= c as u32 && c as u32 <= '9' as u32
    ||| 'a' as u32 <= c as u32 && c as u32 <= 'f' as u32
    ||| 'A' as u32 <= c as u32 && c as u32 <= 'F' as u32
}

/// An ASCII letter.
pub open spec fn is_alpha(c: char) -> bool {
    ||| 'a' as u32 <= c as u32 && c as u32 <= 'z' as u32
    ||| 'A' as u32 <= c as u32 && c as u32 <= 'Z' as u32
}

/// A character allowed in a package type: a letter, a digit, `.`, `+` or `-`.
pub open spec fn is_type_char(c: char) -> bool {
    ||| is_alpha(c)
    ||| '0' as u32 <= c as u32 && c as u32 <= '9' as u32
    ||| c == '.'
    ||| c == '+'
    ||| c == '-'
}

/// A valid package type: non-empty, starts with a letter, and made of the
/// type alphabet only.
pub open spec fn valid_type(s: Seq<char>) -> bool {
    &&& s.len() > 0
    &&& is_alpha(s[0])
    &&& forall|i: int| 0 <= i < s.len() ==> is_type_char(#[trigger] s[i])
}

/// Every `%` introduces two hexadecimal digits.
pub open spec fn percent_ok(s: Seq<char>) -> bool {
    forall|i: int|
        0 <= i < s.len() && #[trigger] s[i] == '%' ==> i + 2 < s.len() && is_hex_digit(
            s[i + 1],
        ) && is_hex_digit(s[i + 2])
}

fn is_hex_digit_exec(c: char) -> (b: bool)
    ensures
        b == is_hex_digit(c),
{
    let n = c as u32;
    ('0' as u32 <= n && n <= '9' as u32) || ('a' as u32 <= n && n <= 'f' as u32) || ('A' as u32 <= n
        && n <= 'F' as u32)
}

fn is_type_char_exec(c: char) -> (b: bool)
    ensures
        b == is_type_char(c),
{
    let n = c as u32;
    ('a' as u32 <= n && n <= 'z' as u32) || ('A' as u32 <= n && n <= 'Z' as u32) || ('0' as u32 <= n
        && n <= '9' as u32) || c == '.' || c == '+' || c == '-'
}

/// Checks that every `%` in `s` introduces two hexadecimal digits.
fn check_percent(s: &str) -> (b: bool)
    ensures
        b == percent_ok(s@),
{
    let len = s.unicode_len();
    let mut i: usize = 0;
    while i < len
        invariant
            len == s@.len(),
            0 <= i <= len,
            forall|j: int|
                0 <= j < i && #[trigger] s@[j] == '%' ==> j + 2 < len && is_hex_digit(
                    s@[j + 1],
                ) && is_hex_digit(s@[j + 2]),
        decreases len - i,
    {
        let c = s.get_char(i);
        if c == '%' {
            if len - i <= 2 {
                return false;
            }
            let h1 = s.get_char(i + 1);
            let h2 = s.get_char(i + 2);
            if !(is_hex_digit_exec(h1) && is_hex_digit_exec(h2)) {
                return false;
            }
        }
        i = i + 1;
    }
    true
}

/// Index of the last occurrence of `c` in `s`, as `Seq::index_of_last`.
fn find_last(s: &str, c: char) -> (r: Option<usize>)
    ensures
        match r {
            Option::Some(i) => s@.index_of_last(c) == Option::Some(i as int),
            Option::None => s@.index_of_last(c) is None,
        },
{
    proof {
        s@.index_of_last_ensures(c);
    }
    let len = s.unicode_len();
    let mut i: usize = len;
    while i > 0
        invariant
            len == s@.len(),
            0 <= i <= len,
            forall|j: int| i <= j < len ==> s@[j] != c,
        decreases i,
    {
        i = i - 1;
        if s.get_char(i) == c {
            proof {
                s@.index_of_last_ensures(c);
                assert(s@[i as int] == c);
                assert(s@.contains(c));
                let k = s@.index_of_last(c)->Some_0;
                if k < i as int {
                    assert(s@[i as int] != c);
                }
                if k > i as int {
                    assert(s@[k] != c);
                }
                assert(k == i as int);
            }
            return Some(i);
        }
    }
    proof {
        s@.index_of_last_ensures(c);
        assert(forall|j: int| 0 <= j < s@.len() ==> s@[j] != c);
        assert(!s@.contains(c));
    }
    None
}

/// Index of the first occurrence of `c` in `s`, as `Seq::index_of_first`.
fn find_first(s: &str, c: char) -> (r: Option<usize>)
    ensures
        match r {
            Option::Some(i) => s@.index_of_first(c) == Option::Some(i as int),
            Option::None => s@.index_of_first(c) is None,
        },
{
    proof {
        s@.index_of_first_ensures(c);
    }
    let len = s.unicode_len();
    let mut i: usize = 0;
    while i < len
        invariant
            len == s@.len(),
            0 <= i <= len,
            forall|j: int| 0 <= j < i ==> s@[j] != c,
        decreases len - i,
    {
        if s.get_char(i) == c {
            proof {
                s@.index_of_first_ensures(c);
                assert(s@[i as int] == c);
                assert(s@.contains(c));
                let k = s@.index_of_first(c)->Some_0;
                if k < i as int {
                    assert(s@[k] != c);
                }
                if k > i as int {
                    assert(s@[i as int] != c);
                }
                assert(k == i as int);
            }
            return Some(i);
        }
        i = i + 1;
    }
    proof {
        s@.index_of_first_ensures(c);
        assert(forall|j: int| 0 <= j < s@.len() ==> s@[j] != c);
        assert(!s@.contains(c));
    }
    None
}

/// Splits the subpath off the remainder after the scheme: the part after the
/// last `#`, which must be non-empty when the `#` is present.
pub open spec fn split_subpath(r: Seq<char>) -> Result<(Seq<char>, Option<Seq<char>>), ParseError> {
    match r.index_of_last('#') {
        Option::None => Result::Ok((r, Option::None)),
        Option::Some(i) => if i + 1 < r.len() {
            Result::Ok((r.take(i), Option::Some(r.skip(i + 1))))
        } else {
            Result::Err(ParseError::EmptySubpath)
        },
    }
}

/// Splits one `key=value` pair at the first `=`; the key must be non-empty.
pub open spec fn parse_pair(comp: Seq<char>) -> Result<(Seq<char>, Seq<char>), ParseError> {
    match comp.index_of_first('=') {
        Option::None => Result::Err(ParseError::InvalidQualifier),
        Option::Some(i) => if i == 0 {
            Result::Err(ParseError::InvalidQualifier)
        } else {
            Result::Ok((comp.take(i), comp.skip(i + 1)))
        },
    }
}

/// Parses a non-empty `&`-separated list of `key=value` pairs, in document
/// order.
pub open spec fn parse_qualifiers(q: Seq<char>) -> Result<
    Seq<(Seq<char>, Seq<char>)>,
    ParseError,
>
    decreases q.len(),
    via parse_qualifiers_decreases
{
    match q.index_of_first('&') {
        Option::None => match parse_pair(q) {
            Result::Ok(p) => Result::Ok(seq![p]),
            Result::Err(e) => Result::Err(e),
        },
        Option::Some(i) => match parse_pair(q.take(i)) {
            Result::Ok(p) => match parse_qualifiers(q.skip(i + 1)) {
                Result::Ok(rest) => Result::Ok(seq![p] + rest),
                Result::Err(e) => Result::Err(e),
            },
            Result::Err(e) => Result::Err(e),
        },
    }
}

#[via_fn]
proof fn parse_qualifiers_decreases(q: Seq<char>) {
    q.index_of_first_ensures('&');
}

/// Splits the qualifier list off: the part after the last `?`, which must
/// parse as a non-empty list of pairs when the `?` is present.
pub open spec fn split_qualifiers(r: Seq<char>) -> Result<
    (Seq<char>, Option<Seq<(Seq<char>, Seq<char>)>>),
    ParseError,
> {
    match r.index_of_last('?') {
        Option::None => Result::Ok((r, Option::None)),
        Option::Some(i) => if i + 1 < r.len() {
            match parse_qualifiers(r.skip(i + 1)) {
                Result::Ok(qs) => Result::Ok((r.take(i), Option::Some(qs))),
                Result::Err(e) => Result::Err(e),
            }
        } else {
            Result::Err(ParseError::InvalidQualifier)
        },
    }
}

/// Splits the version off: the part after the last `@`, but only when that
/// `@` stands after the last `/` (so a namespace such as `@babel` is not
/// mistaken for a version).  When it applies, the version must be non-empty.
pub open spec fn split_version(r: Seq<char>) -> Result<
    (Seq<char>, Option<Seq<char>>),
    ParseError,
> {
    match r.index_of_last('@') {
        Option::None => Result::Ok((r, Option::None)),
        Option::Some(i) => {
            let after_last_slash = match r.index_of_last('/') {
                Option::Some(j) => j < i,
                Option::None => true,
            };
            if !after_last_slash {
                Result::Ok((r, Option::None))
            } else if i + 1 < r.len() {
                Result::Ok((r.take(i), Option::Some(r.skip(i + 1))))
            } else {
                Result::Err(ParseError::EmptyVersion)
            }
        },
    }
}

/// Parses `type/namespace/name`: the type stands before the first `/`, the
/// name after the last `/`, and the namespace is what lies between (absent
/// when empty).
pub open spec fn parse_path(p: Seq<char>) -> Result<
    (Seq<char>, Option<Seq<char>>, Seq<char>),
    ParseError,
> {
    match p.index_of_first('/') {
        Option::None => Result::Err(ParseError::MissingName),
        Option::Some(i) => if !valid_type(p.take(i)) {
            Result::Err(ParseError::InvalidType)
        } else {
            let rest = p.skip(i + 1);
            match rest.index_of_last('/') {
                Option::None => if rest.len() == 0 {
                    Result::Err(ParseError::MissingName)
                } else {
                    Result::Ok((p.take(i), Option::None, rest))
                },
                Option::Some(j) => if j + 1 < rest.len() {
                    if j == 0 {
                        Result::Ok((p.take(i), Option::None, rest.skip(j + 1)))
                    } else {
                        Result::Ok((p.take(i), Option::Some(rest.take(j)), rest.skip(j + 1)))
                    }
                } else {
                    Result::Err(ParseError::MissingName)
                },
            }
        },
    }
}

/// The parsing grammar: scheme, percent validation, then subpath,
/// qualifiers, version and path splits, in that order.
pub open spec fn spec_parse(s: Seq<char>) -> Result<PurlParts, ParseError> {
    if !(s.len() >= 4 && s.take(4) == "pkg:"@) {
        Result::Err(ParseError::InvalidScheme)
    } else {
        let r = s.skip(4);
        if !percent_ok(r) {
            Result::Err(ParseError::InvalidPercentEncoding)
        } else {
            match split_subpath(r) {
                Result::Err(e) => Result::Err(e),
                Result::Ok((r1, subpath)) => match split_qualifiers(r1) {
                    Result::Err(e) => Result::Err(e),
                    Result::Ok((r2, qualifiers)) => match split_version(r2) {
                        Result::Err(e) => Result::Err(e),
                        Result::Ok((r3, version)) => match parse_path(r3) {
                            Result::Err(e) => Result::Err(e),
                            Result::Ok((ty, namespace, name)) => Result::Ok(
                                PurlParts { ty, namespace, name, version, subpath, qualifiers },
                            ),
                        },
                    },
                },
            }
        }
    }
}

/// The value of a parse result: the view of the record on success, the error
/// unchanged on failure.
pub open spec fn parse_result_view(r: Result<PkgInputSpec, ParseError>) -> Result<
    PurlParts,
    ParseError,
> {
    match r {
        Result::Ok(p) => Result::Ok(p@),
        Result::Err(e) => Result::Err(e),
    }
}

/// The view of an optional owned string.
pub open spec fn opt_view(o: Option<String>) -> Option<Seq<char>> {
    match o {
        Option::Some(s) => Option::Some(s@),
        Option::None => Option::None,
    }
}

/// The view of a qualifier list.
pub open spec fn quals_view(v: Seq<PackageQualifierInputSpec>) -> Seq<(Seq<char>, Seq<char>)> {
    v.map_values(|p: PackageQualifierInputSpec| p@)
}

/// Checks that `s` is a valid package type.
fn check_type(s: &str) -> (b: bool)
    ensures
        b == valid_type(s@),
{
    let len = s.unicode_len();
    if len == 0 {
        return false;
    }
    let c0 = s.get_char(0);
    let n0 = c0 as u32;
    if !(('a' as u32 <= n0 && n0 <= 'z' as u32) || ('A' as u32 <= n0 && n0 <= 'Z' as u32)) {
        return false;
    }
    let mut i: usize = 0;
    while i < len
        invariant
            len == s@.len(),
            0 <= i <= len,
            forall|j: int| 0 <= j < i ==> is_type_char(#[trigger] s@[j]),
        decreases len - i,
    {
        if !is_type_char_exec(s.get_char(i)) {
            return false;
        }
        i = i + 1;
    }
    true
}

/// Splits one qualifier component into its key and value.
fn parse_pair_exec(comp: &str) -> (r: Result<PackageQualifierInputSpec, ParseError>)
    ensures
        match r {
            Result::Ok(p) => parse_pair(comp@) == Result::Ok::<_, ParseError>(p@),
            Result::Err(e) => parse_pair(comp@) == Result::Err::<(Seq<char>, Seq<char>), _>(e),
        },
{
    proof {
        comp@.index_of_first_ensures('=');
    }
    match find_first(comp, '=') {
        Option::None => Result::Err(ParseError::InvalidQualifier),
        Option::Some(i) => {
            if i == 0 {
                Result::Err(ParseError::InvalidQualifier)
            } else {
                let len = comp.unicode_len();
                let key = comp.substring_char(0, i).to_owned();
                let value = comp.substring_char(i + 1, len).to_owned();
                let p = PackageQualifierInputSpec { key, value };
                proof {
                    assert(p@.0 =~= comp@.take(i as int));
                    assert(p@.1 =~= comp@.skip(i + 1));
                }
                Result::Ok(p)
            }
        },
    }
}

/// Parses a `&`-separated qualifier list.
fn parse_qualifiers_exec(q: &str) -> (r: Result<Vec<PackageQualifierInputSpec>, ParseError>)
    ensures
        match r {
            Result::Ok(v) => parse_qualifiers(q@) == Result::Ok::<_, ParseError>(quals_view(v@)),
            Result::Err(e) => parse_qualifiers(q@) == Result::Err::<
                Seq<(Seq<char>, Seq<char>)>,
                _,
            >(e),
        },
    decreases q@.len(),
{
    proof {
        q@.index_of_first_ensures('&');
    }
    match find_first(q, '&') {
        Option::None => {
            match parse_pair_exec(q) {
                Result::Err(e) => Result::Err(e),
                Result::Ok(p) => {
                    let mut v: Vec<PackageQualifierInputSpec> = Vec::new();
                    v.push(p);
                    proof {
                        assert(quals_view(v@) =~= seq![p@]);
                    }
                    Result::Ok(v)
                },
            }
        },
        Option::Some(i) => {
            let len = q.unicode_len();
            let comp = q.substring_char(0, i);
            match parse_pair_exec(comp) {
                Result::Err(e) => Result::Err(e),
                Result::Ok(p) => {
                    let rest_str = q.substring_char(i + 1, len);
                    proof {
                        assert(rest_str@ =~= q@.skip(i + 1));
                    }
                    match parse_qualifiers_exec(rest_str) {
                        Result::Err(e) => Result::Err(e),
                        Result::Ok(rest) => {
                            let mut v: Vec<PackageQualifierInputSpec> = Vec::new();
                            v.push(p);
                            let mut rest = rest;
                            let ghost rest0: Seq<PackageQualifierInputSpec> = rest@;
                            v.append(&mut rest);
                            proof {
                                assert(v@ =~= seq![p] + rest0);
                                assert(quals_view(v@) =~= seq![p@] + quals_view(rest0));
                            }
                            Result::Ok(v)
                        },
                    }
                },
            }
        },
    }
}

/// Parses a package identifier string into its canonical structured form.
///
/// The result is exactly `spec_parse` of the input: on success no component
/// is lost or invented, and on failure the error names the first rule the
/// string breaks.
#[verifier::rlimit(60)]
pub fn parse(s: &str) -> (res: Result<PkgInputSpec, ParseError>)
    ensures
        parse_result_view(res) == spec_parse(s@),
{
    let len = s.unicode_len();
    if len < 4 {
        return Result::Err(ParseError::InvalidScheme);
    }
    let c0 = s.get_char(0);
    let c1 = s.get_char(1);
    let c2 = s.get_char(2);
    let c3 = s.get_char(3);
    proof {
        reveal_strlit("pkg:");
    }
    if !(c0 == 'p' && c1 == 'k' && c2 == 'g' && c3 == ':') {
        proof {
            assert(s@.take(4) != "pkg:"@) by {
                if s@.take(4) == "pkg:"@ {
                    assert(s@.take(4)[0] == 'p');
                    assert(s@.take(4)[1] == 'k');
                    assert(s@.take(4)[2] == 'g');
                    assert(s@.take(4)[3] == ':');
                }
            }
        }
        return Result::Err(ParseError::InvalidScheme);
    }
    proof {
        assert(s@.take(4) =~= "pkg:"@);
    }
    let r_str = s.substring_char(4, len);
    proof {
        assert(r_str@ =~= s@.skip(4));
    }
    if !check_percent(r_str) {
        return Result::Err(ParseError::InvalidPercentEncoding);
    }
    // Subpath: after the last `#`.
    proof {
        r_str@.index_of_last_ensures('#');
    }
    let rlen = r_str.unicode_len();
    let (rest1, subpath): (&str, Option<String>) = match find_last(r_str, '#') {
        Option::None => (r_str, Option::None),
        Option::Some(i) => {
            if i + 1 < rlen {
                let sp = r_str.substring_char(i + 1, rlen).to_owned();
                let left = r_str.substring_char(0, i);
                proof {
                    assert(left@ =~= r_str@.take(i as int));
                    assert(sp@ =~= r_str@.skip(i + 1));
                }
                (left, Option::Some(sp))
            } else {
                return Result::Err(ParseError::EmptySubpath);
            }
        },
    };
    proof {
        assert(split_subpath(s@.skip(4)) == Result::Ok::<_, ParseError>(
            (rest1@, opt_view(subpath)),
        ));
    }
    // Qualifiers: after the last `?` of what is left.
    proof {
        rest1@.index_of_last_ensures('?');
    }
    let len1 = rest1.unicode_len();
    let (rest2, qualifiers): (&str, Option<Vec<PackageQualifierInputSpec>>) = match find_last(
        rest1,
        '?',
    ) {
        Option::None => (rest1, Option::None),
        Option::Some(i) => {
            if i + 1 < len1 {
                let qstr = rest1.substring_char(i + 1, len1);
                proof {
                    assert(qstr@ =~= rest1@.skip(i + 1));
                }
                match parse_qualifiers_exec(qstr) {
                    Result::Err(e) => {
                        return Result::Err(e);
                    },
                    Result::Ok(v) => {
                        let left = rest1.substring_char(0, i);
                        proof {
                            assert(left@ =~= rest1@.take(i as int));
                        }
                        (left, Option::Some(v))
                    },
                }
            } else {
                return Result::Err(ParseError::InvalidQualifier);
            }
        },
    };
    let ghost qual_parts: Option<Seq<(Seq<char>, Seq<char>)>> = match qualifiers {
        Option::Some(ref v) => Option::Some(quals_view(v@)),
        Option::None => Option::None,
    };
    proof {
        assert(split_qualifiers(rest1@) == Result::Ok::<_, ParseError>((rest2@, qual_parts)));
    }
    // Version: after the last `@`, when that `@` stands after the last `/`.
    proof {
        rest2@.index_of_last_ensures('@');
        rest2@.index_of_last_ensures('/');
    }
    let len2 = rest2.unicode_len();
    let (rest3, version): (&str, Option<String>) = match find_last(rest2, '@') {
        Option::None => (rest2, Option::None),
        Option::Some(i) => {
            let after_last_slash = match find_last(rest2, '/') {
                Option::Some(j) => j < i,
                Option::None => true,
            };
            if !after_last_slash {
                (rest2, Option::None)
            } else if i + 1 < len2 {
                let v = rest2.substring_char(i + 1, len2).to_owned();
                let left = rest2.substring_char(0, i);
                proof {
                    assert(left@ =~= rest2@.take(i as int));
                    assert(v@ =~= rest2@.skip(i + 1));
                }
                (left, Option::Some(v))
            } else {
                return Result::Err(ParseError::EmptyVersion);
            }
        },
    };
    proof {
        assert(split_version(rest2@) == Result::Ok::<_, ParseError>((rest3@, opt_view(version))));
    }
    // Path: `type/namespace/name`.
    proof {
        rest3@.index_of_first_ensures('/');
    }
    let len3 = rest3.unicode_len();
    let (ty, namespace, name): (&str, Option<String>, String) = match find_first(rest3, '/') {
        Option::None => {
            return Result::Err(ParseError::MissingName);
        },
        Option::Some(i) => {
            let ty = rest3.substring_char(0, i);
            proof {
                assert(ty@ =~= rest3@.take(i as int));
            }
            if !check_type(ty) {
                return Result::Err(ParseError::InvalidType);
            }
            let rest4 = rest3.substring_char(i + 1, len3);
            proof {
                assert(rest4@ =~= rest3@.skip(i + 1));
                rest4@.index_of_last_ensures('/');
            }
            let len4 = rest4.unicode_len();
            match find_last(rest4, '/') {
                Option::None => {
                    if len4 == 0 {
                        return Result::Err(ParseError::MissingName);
                    }
                    (ty, Option::None, rest4.to_owned())
                },
                Option::Some(j) => {
                    if j + 1 < len4 {
                        let nm = rest4.substring_char(j + 1, len4).to_owned();
                        proof {
                            assert(nm@ =~= rest4@.skip(j + 1));
                        }
                        if j == 0 {
                            (ty, Option::None, nm)
                        } else {
                            let ns = rest4.substring_char(0, j).to_owned();
                            proof {
                                assert(ns@ =~= rest4@.take(j as int));
                            }
                            (ty, Option::Some(ns), nm)
                        }
                    } else {
                        return Result::Err(ParseError::MissingName);
                    }
                },
            }
        },
    };
    proof {
        assert(parse_path(rest3@) == Result::Ok::<_, ParseError>(
            (ty@, opt_view(namespace), name@),
        ));
    }
    let p = PkgInputSpec {
        type_: ty.to_owned(),
        namespace,
        name,
        version,
        subpath,
        qualifiers,
    };
    proof {
        assert(p@ == spec_parse(s@)->Ok_0);
        assert(spec_parse(s@) is Ok);
    }
    Result::Ok(p)
}

/// The serialized form of a qualifier list: `key=value` pairs joined by `&`.
pub open spec fn spec_serialize_quals(qs: Seq<(Seq<char>, Seq<char>)>) -> Seq<char>
    decreases qs.len(),
{
    if qs.len() == 0 {
        Seq::empty()
    } else if qs.len() == 1 {
        qs[0].0 + "="@ + qs[0].1
    } else {
        qs[0].0 + "="@ + qs[0].1 + "&"@ + spec_serialize_quals(qs.drop_first())
    }
}

/// The serialized form of a parsed identifier:
/// `pkg:type/namespace/name@version?qualifiers#subpath`, with the optional
/// components and their separators left out where absent.
pub open spec fn spec_serialize(p: PurlParts) -> Seq<char> {
    "pkg:"@ + p.ty + "/"@ + (match p.namespace {
        Option::Some(ns) => ns + "/"@,
        Option::None => Seq::<char>::empty(),
    }) + p.name + (match p.version {
        Option::Some(v) => "@"@ + v,
        Option::None => Seq::<char>::empty(),
    }) + (match p.qualifiers {
        Option::Some(qs) => "?"@ + spec_serialize_quals(qs),
        Option::None => Seq::<char>::empty(),
    }) + (match p.subpath {
        Option::Some(sp) => "#"@ + sp,
        Option::None => Seq::<char>::empty(),
    })
}

/// Serializes the qualifiers from index `i` on.
fn serialize_quals_from(qs: &Vec<PackageQualifierInputSpec>, i: usize) -> (r: String)
    requires
        i <= qs.len(),
    ensures
        r@ == spec_serialize_quals(quals_view(qs@.skip(i as int))),
    decreases qs.len() - i,
{
    let ghost tail = quals_view(qs@.skip(i as int));
    if i == qs.len() {
        proof {
            assert(tail.len() == 0);
        }
        String::new()
    } else {
        let q = &qs[i];
        let mut out = String::new();
        out.append(q.key.as_str());
        out.append("=");
        out.append(q.value.as_str());
        proof {
            assert(tail[0] == qs@[i as int]@);
        }
        if i + 1 < qs.len() {
            out.append("&");
            let rest = serialize_quals_from(qs, i + 1);
            out.append(rest.as_str());
            proof {
                assert(tail.drop_first() =~= quals_view(qs@.skip(i + 1)));
                assert(out@ =~= spec_serialize_quals(tail));
            }
        } else {
            proof {
                assert(tail.len() == 1);
                assert(out@ =~= spec_serialize_quals(tail));
            }
        }
        out
    }
}

/// Serializes a parsed identifier back to its string form: exactly
/// `spec_serialize` of the record's value.
pub fn serialize(p: &PkgInputSpec) -> (r: String)
    ensures
        r@ == spec_serialize(p@),
{
    let mut out = String::new();
    out.append("pkg:");
    out.append(p.type_.as_str());
    out.append("/");
    match p.namespace {
        Option::Some(ref ns) => {
            out.append(ns.as_str());
            out.append("/");
        },
        Option::None => {},
    }
    out.append(p.name.as_str());
    match p.version {
        Option::Some(ref v) => {
            out.append("@");
            out.append(v.as_str());
        },
        Option::None => {},
    }
    match p.qualifiers {
        Option::Some(ref qs) => {
            out.append("?");
            let qpart = serialize_quals_from(qs, 0);
            out.append(qpart.as_str());
            proof {
                assert(quals_view(qs@.skip(0)) =~= quals_view(qs@));
            }
        },
        Option::None => {},
    }
    match p.subpath {
        Option::Some(ref sp) => {
            out.append("#");
            out.append(sp.as_str());
        },
        Option::None => {},
    }
    proof {
        assert(out@ =~= spec_serialize(p@));
    }
    out
}

/// `c` does not occur in `s`.
pub open spec fn no_char(s: Seq<char>, c: char) -> bool {
    forall|i: int| 0 <= i < s.len() ==> s[i] != c
}

/// One qualifier pair as parsing leaves it: a non-empty key without `=`,
/// and no stray pair or list separator in key or value.
pub open spec fn wf_qualifier(q: (Seq<char>, Seq<char>)) -> bool {
    &&& q.0.len() > 0
    &&& no_char(q.0, '=')
    &&& no_char(q.0, '&')
    &&& no_char(q.1, '&')
    &&& no_char(q.0, '?')
    &&& no_char(q.1, '?')
    &&& percent_ok(q.0)
    &&& percent_ok(q.1)
}

/// The shape every successfully parsed record has; on such records
/// serialization is inverted exactly by parsing.
pub open spec fn wf_parts(p: PurlParts) -> bool {
    &&& valid_type(p.ty)
    &&& p.name.len() > 0
    &&& no_char(p.name, '/')
    &&& percent_ok(p.name)
    &&& match p.namespace {
        Option::Some(ns) => ns.len() > 0 && percent_ok(ns),
        Option::None => true,
    }
    &&& match p.version {
        Option::Some(v) => v.len() > 0 && no_char(v, '@') && no_char(v, '/') && percent_ok(v),
        Option::None => no_char(p.name, '@'),
    }
    &&& match p.qualifiers {
        Option::Some(qs) => qs.len() > 0 && (forall|i: int|
            0 <= i < qs.len() ==> wf_qualifier(#[trigger] qs[i])),
        Option::None => {
            &&& no_char(p.name, '?')
            &&& match p.namespace {
                Option::Some(ns) => no_char(ns, '?'),
                Option::None => true,
            }
            &&& match p.version {
                Option::Some(v) => no_char(v, '?'),
                Option::None => true,
            }
        },
    }
    &&& match p.subpath {
        Option::Some(sp) => sp.len() > 0 && no_char(sp, '#') && percent_ok(sp),
        Option::None => {
            &&& no_char(p.name, '#')
            &&& match p.namespace {
                Option::Some(ns) => no_char(ns, '#'),
                Option::None => true,
            }
            &&& match p.version {
                Option::Some(v) => no_char(v, '#'),
                Option::None => true,
            }
            &&& match p.qualifiers {
                Option::Some(qs) => forall|i: int|
                    0 <= i < qs.len() ==> no_char(#[trigger] qs[i].0, '#') && no_char(
                        qs[i].1,
                        '#',
                    ),
                Option::None => true,
            }
        },
    }
}

/// The last occurrence of `c` is at `i` when `c` stands there and nowhere
/// later.
proof fn lemma_last_at(s: Seq<char>, c: char, i: int)
    requires
        0 <= i < s.len(),
        s[i] == c,
        forall|j: int| i < j < s.len() ==> s[j] != c,
    ensures
        s.index_of_last(c) == Option::Some(i),
{
    s.index_of_last_ensures(c);
    assert(s.contains(c));
    let k = s.index_of_last(c)->Some_0;
    if k < i {
        assert(s[i] != c);
    }
    if k > i {
        assert(s[k] != c);
    }
}

/// A sequence without `c` has no last occurrence of it.
proof fn lemma_last_none(s: Seq<char>, c: char)
    requires
        no_char(s, c),
    ensures
        s.index_of_last(c) is None,
{
    s.index_of_last_ensures(c);
    if s.index_of_last(c) is Some {
        let k = s.index_of_last(c)->Some_0;
        assert(s[k] == c);
        assert(false);
    }
}

/// The first occurrence of `c` is at `i` when `c` stands there and nowhere
/// earlier.
proof fn lemma_first_at(s: Seq<char>, c: char, i: int)
    requires
        0 <= i < s.len(),
        s[i] == c,
        forall|j: int| 0 <= j < i ==> s[j] != c,
    ensures
        s.index_of_first(c) == Option::Some(i),
{
    s.index_of_first_ensures(c);
    assert(s.contains(c));
    let k = s.index_of_first(c)->Some_0;
    if k < i {
        assert(s[k] != c);
    }
    if k > i {
        assert(s[i] != c);
    }
}

/// A sequence without `c` has no first occurrence of it.
proof fn lemma_first_none(s: Seq<char>, c: char)
    requires
        no_char(s, c),
    ensures
        s.index_of_first(c) is None,
{
    s.index_of_first_ensures(c);
    if s.index_of_first(c) is Some {
        let k = s.index_of_first(c)->Some_0;
        assert(s[k] == c);
        assert(false);
    }
}

/// Percent validity is preserved by concatenation: a valid piece never ends
/// within two characters of one of its `%`.
proof fn lemma_percent_concat(a: Seq<char>, b: Seq<char>)
    requires
        percent_ok(a),
        percent_ok(b),
    ensures
        percent_ok(a + b),
{
    let s = a + b;
    assert forall|i: int| 0 <= i < s.len() && #[trigger] s[i] == '%' implies i + 2 < s.len()
        && is_hex_digit(s[i + 1]) && is_hex_digit(s[i + 2]) by {
        if i < a.len() {
            assert(a[i] == '%');
            assert(s[i + 1] == a[i + 1]);
            assert(s[i + 2] == a[i + 2]);
        } else {
            assert(b[i - a.len()] == '%');
            assert(s[i + 1] == b[i + 1 - a.len()]);
            assert(s[i + 2] == b[i + 2 - a.len()]);
        }
    }
}

/// A sequence without `%` is trivially percent-valid.
proof fn lemma_percent_no_percent(s: Seq<char>)
    requires
        no_char(s, '%'),
    ensures
        percent_ok(s),
{
}

/// The serialized qualifier list avoids `c` when every key and value does
/// and `c` is neither separator.
proof fn lemma_quals_chars(qs: Seq<(Seq<char>, Seq<char>)>, c: char)
    requires
        c != '=',
        c != '&',
        forall|i: int|
            0 <= i < qs.len() ==> no_char(#[trigger] qs[i].0, c) && no_char(qs[i].1, c),
    ensures
        no_char(spec_serialize_quals(qs), c),
    decreases qs.len(),
{
    reveal_strlit("=");
    reveal_strlit("&");
    if qs.len() == 0 {
    } else if qs.len() == 1 {
        assert(no_char(qs[0].0 + "="@ + qs[0].1, c));
    } else {
        lemma_quals_chars(qs.drop_first(), c);
        assert(no_char(qs[0].0 + "="@ + qs[0].1 + "&"@ + spec_serialize_quals(qs.drop_first()), c));
    }
}

/// The serialized qualifier list is percent-valid when every key and value
/// is.
proof fn lemma_quals_percent(qs: Seq<(Seq<char>, Seq<char>)>)
    requires
        forall|i: int|
            0 <= i < qs.len() ==> percent_ok(#[trigger] qs[i].0) && percent_ok(qs[i].1),
    ensures
        percent_ok(spec_serialize_quals(qs)),
    decreases qs.len(),
{
    reveal_strlit("=");
    reveal_strlit("&");
    assert(no_char("="@, '%'));
    assert(no_char("&"@, '%'));
    if qs.len() == 0 {
    } else if qs.len() == 1 {
        lemma_percent_concat(qs[0].0, "="@);
        lemma_percent_concat(qs[0].0 + "="@, qs[0].1);
    } else {
        lemma_quals_percent(qs.drop_first());
        lemma_percent_concat(qs[0].0, "="@);
        lemma_percent_concat(qs[0].0 + "="@, qs[0].1);
        lemma_percent_concat(qs[0].0 + "="@ + qs[0].1, "&"@);
        lemma_percent_concat(qs[0].0 + "="@ + qs[0].1 + "&"@, spec_serialize_quals(qs.drop_first()));
    }
}

/// Parsing inverts qualifier serialization.
proof fn lemma_quals_parse(qs: Seq<(Seq<char>, Seq<char>)>)
    requires
        qs.len() > 0,
        forall|i: int| 0 <= i < qs.len() ==> wf_qualifier(#[trigger] qs[i]),
    ensures
        spec_serialize_quals(qs).len() > 0,
        parse_qualifiers(spec_serialize_quals(qs)) == Result::Ok::<_, ParseError>(qs),
    decreases qs.len(),
{
    reveal_strlit("=");
    reveal_strlit("&");
    let k = qs[0].0;
    let v = qs[0].1;
    let comp = k + "="@ + v;
    assert(comp[k.len() as int] == '=');
    if qs.len() == 1 {
        let s = spec_serialize_quals(qs);
        assert(s =~= comp);
        lemma_first_none(s, '&');
        lemma_first_at(s, '=', k.len() as int);
        assert(s.take(k.len() as int) =~= k);
        assert(s.skip(k.len() as int + 1) =~= v);
        assert(parse_pair(s) == Result::Ok::<_, ParseError>((k, v)));
        assert(seq![(k, v)] =~= qs);
    } else {
        let tail = qs.drop_first();
        assert(forall|i: int| 0 <= i < tail.len() ==> tail[i] == qs[i + 1]);
        lemma_quals_parse(tail);
        let rest = spec_serialize_quals(tail);
        let s = spec_serialize_quals(qs);
        assert(s =~= comp + "&"@ + rest);
        let a = comp.len() as int;
        assert(s[a] == '&');
        assert forall|j: int| 0 <= j < a implies s[j] != '&' by {
            assert(s[j] == comp[j]);
            if j < k.len() {
                assert(comp[j] == k[j]);
            } else if j == k.len() {
            } else {
                assert(comp[j] == v[j - k.len() - 1]);
            }
        }
        lemma_first_at(s, '&', a);
        assert(s.take(a) =~= comp);
        assert(s.skip(a + 1) =~= rest);
        lemma_first_none(comp, '&');
        lemma_first_at(comp, '=', k.len() as int);
        assert(comp.take(k.len() as int) =~= k);
        assert(comp.skip(k.len() as int + 1) =~= v);
        assert(parse_pair(comp) == Result::Ok::<_, ParseError>((k, v)));
        assert(seq![(k, v)] + tail =~= qs);
    }
}

/// `c` occurs in neither piece, so not in their concatenation.
proof fn lemma_no_char_concat(a: Seq<char>, b: Seq<char>, c: char)
    requires
        no_char(a, c),
        no_char(b, c),
    ensures
        no_char(a + b, c),
{
    assert forall|i: int| 0 <= i < (a + b).len() implies (a + b)[i] != c by {
        if i < a.len() {
            assert((a + b)[i] == a[i]);
        } else {
            assert((a + b)[i] == b[i - a.len()]);
        }
    }
}

/// The type alphabet holds none of the grammar's separators and no `%`.
proof fn lemma_type_chars_clean(t: Seq<char>)
    requires
        valid_type(t),
    ensures
        no_char(t, '%'),
        no_char(t, '/'),
        no_char(t, '@'),
        no_char(t, '?'),
        no_char(t, '#'),
{
}

/// The serialized namespace with its trailing separator, when present.
spec fn ser_nspart(p: PurlParts) -> Seq<char> {
    match p.namespace {
        Option::Some(ns) => ns + "/"@,
        Option::None => Seq::<char>::empty(),
    }
}

/// Everything before the name: type, separator, namespace part.
spec fn ser_pre(p: PurlParts) -> Seq<char> {
    p.ty + "/"@ + ser_nspart(p)
}

/// The path: type, namespace and name.
spec fn ser_path(p: PurlParts) -> Seq<char> {
    ser_pre(p) + p.name
}

/// The serialized version with its separator, when present.
spec fn ser_vpart(p: PurlParts) -> Seq<char> {
    match p.version {
        Option::Some(v) => "@"@ + v,
        Option::None => Seq::<char>::empty(),
    }
}

/// The path followed by the version part.
spec fn ser_withv(p: PurlParts) -> Seq<char> {
    ser_path(p) + ser_vpart(p)
}

/// The serialized qualifier list, without its separator.
spec fn ser_qser(p: PurlParts) -> Seq<char> {
    match p.qualifiers {
        Option::Some(qs) => spec_serialize_quals(qs),
        Option::None => Seq::<char>::empty(),
    }
}

/// The serialized qualifier list with its separator, when present.
spec fn ser_qpart(p: PurlParts) -> Seq<char> {
    match p.qualifiers {
        Option::Some(qs) => "?"@ + ser_qser(p),
        Option::None => Seq::<char>::empty(),
    }
}

/// Everything up to and including the qualifiers.
spec fn ser_withq(p: PurlParts) -> Seq<char> {
    ser_withv(p) + ser_qpart(p)
}

/// The serialized subpath with its separator, when present.
spec fn ser_spart(p: PurlParts) -> Seq<char> {
    match p.subpath {
        Option::Some(sp) => "#"@ + sp,
        Option::None => Seq::<char>::empty(),
    }
}

/// The whole serialized string after the scheme.
spec fn ser_body(p: PurlParts) -> Seq<char> {
    ser_withq(p) + ser_spart(p)
}

/// The serialized body of a well-formed record is percent-valid.
proof fn lemma_rt_percent(p: PurlParts)
    requires
        wf_parts(p),
    ensures
        percent_ok(ser_body(p)),
{
    reveal_strlit("/");
    reveal_strlit("@");
    reveal_strlit("?");
    reveal_strlit("#");
    let nspart = ser_nspart(p);
    let pre = ser_pre(p);
    let path = ser_path(p);
    let vpart = ser_vpart(p);
    let withv = ser_withv(p);
    let qser = ser_qser(p);
    let qpart = ser_qpart(p);
    let withq = ser_withq(p);
    let spart = ser_spart(p);
    lemma_type_chars_clean(p.ty);
    lemma_percent_no_percent(p.ty);
    assert(no_char("/"@, '%'));
    assert(no_char("@"@, '%'));
    assert(no_char("?"@, '%'));
    assert(no_char("#"@, '%'));
    lemma_percent_no_percent("/"@);
    match p.namespace {
        Option::Some(ns) => {
            lemma_percent_concat(ns, "/"@);
        },
        Option::None => {},
    }
    lemma_percent_concat(p.ty, "/"@);
    lemma_percent_concat(p.ty + "/"@, nspart);
    lemma_percent_concat(pre, p.name);
    match p.version {
        Option::Some(v) => {
            lemma_percent_no_percent("@"@);
            lemma_percent_concat("@"@, v);
        },
        Option::None => {},
    }
    lemma_percent_concat(path, vpart);
    match p.qualifiers {
        Option::Some(qs) => {
            lemma_quals_percent(qs);
            lemma_percent_no_percent("?"@);
            lemma_percent_concat("?"@, qser);
        },
        Option::None => {},
    }
    lemma_percent_concat(withv, qpart);
    match p.subpath {
        Option::Some(sp) => {
            lemma_percent_no_percent("#"@);
            lemma_percent_concat("#"@, sp);
        },
        Option::None => {},
    }
    lemma_percent_concat(withq, spart);
}

/// The first split takes the subpath off the serialized body exactly.
proof fn lemma_rt_subpath(p: PurlParts)
    requires
        wf_parts(p),
    ensures
        split_subpath(ser_body(p)) == Result::Ok::<_, ParseError>((ser_withq(p), p.subpath)),
{
    reveal_strlit("/");
    reveal_strlit("@");
    reveal_strlit("?");
    reveal_strlit("#");
    let nspart = ser_nspart(p);
    let pre = ser_pre(p);
    let path = ser_path(p);
    let vpart = ser_vpart(p);
    let withv = ser_withv(p);
    let qser = ser_qser(p);
    let qpart = ser_qpart(p);
    let withq = ser_withq(p);
    let spart = ser_spart(p);
    let body = ser_body(p);
    lemma_type_chars_clean(p.ty);
    match p.subpath {
        Option::Some(sp) => {
            let i0 = withq.len() as int;
            assert(body[i0] == '#');
            assert forall|j: int| i0 < j < body.len() implies body[j] != '#' by {
                assert(body[j] == sp[j - i0 - 1]);
            }
            lemma_last_at(body, '#', i0);
            assert(body.take(i0) =~= withq);
            assert(body.skip(i0 + 1) =~= sp);
            assert(split_subpath(body) == Result::Ok::<_, ParseError>(
                (withq, Option::Some(sp)),
            ));
        },
        Option::None => {
            assert(no_char("/"@, '#'));
            assert(no_char("@"@, '#'));
            assert(no_char("?"@, '#'));
            match p.namespace {
                Option::Some(ns) => {
                    lemma_no_char_concat(ns, "/"@, '#');
                },
                Option::None => {},
            }
            lemma_no_char_concat(p.ty, "/"@, '#');
            lemma_no_char_concat(p.ty + "/"@, nspart, '#');
            lemma_no_char_concat(pre, p.name, '#');
            match p.version {
                Option::Some(v) => {
                    lemma_no_char_concat("@"@, v, '#');
                },
                Option::None => {},
            }
            lemma_no_char_concat(path, vpart, '#');
            match p.qualifiers {
                Option::Some(qs) => {
                    lemma_quals_chars(qs, '#');
                    lemma_no_char_concat("?"@, qser, '#');
                },
                Option::None => {},
            }
            lemma_no_char_concat(withv, qpart, '#');
            assert(body =~= withq);
            lemma_last_none(body, '#');
            assert(split_subpath(body) == Result::Ok::<_, ParseError>((body, Option::None::<Seq<char>>)));
        },
    }
}

/// The second split takes the qualifiers off exactly.
proof fn lemma_rt_quals(p: PurlParts)
    requires
        wf_parts(p),
    ensures
        split_qualifiers(ser_withq(p)) == Result::Ok::<_, ParseError>(
            (ser_withv(p), p.qualifiers),
        ),
{
    reveal_strlit("/");
    reveal_strlit("@");
    reveal_strlit("?");
    let nspart = ser_nspart(p);
    let pre = ser_pre(p);
    let path = ser_path(p);
    let vpart = ser_vpart(p);
    let withv = ser_withv(p);
    let qser = ser_qser(p);
    let qpart = ser_qpart(p);
    let withq = ser_withq(p);
    lemma_type_chars_clean(p.ty);
    match p.qualifiers {
        Option::Some(qs) => {
            let i1 = withv.len() as int;
            lemma_quals_parse(qs);
            lemma_quals_chars(qs, '?');
            assert(withq[i1] == '?');
            assert forall|j: int| i1 < j < withq.len() implies withq[j] != '?' by {
                assert(withq[j] == qser[j - i1 - 1]);
            }
            lemma_last_at(withq, '?', i1);
            assert(withq.take(i1) =~= withv);
            assert(withq.skip(i1 + 1) =~= qser);
            assert(i1 + 1 < withq.len());
            assert(split_qualifiers(withq) == Result::Ok::<_, ParseError>(
                (withv, Option::Some(qs)),
            ));
        },
        Option::None => {
            assert(no_char("/"@, '?'));
            assert(no_char("@"@, '?'));
            match p.namespace {
                Option::Some(ns) => {
                    lemma_no_char_concat(ns, "/"@, '?');
                },
                Option::None => {},
            }
            lemma_no_char_concat(p.ty, "/"@, '?');
            lemma_no_char_concat(p.ty + "/"@, nspart, '?');
            lemma_no_char_concat(pre, p.name, '?');
            match p.version {
                Option::Some(v) => {
                    lemma_no_char_concat("@"@, v, '?');
                },
                Option::None => {},
            }
            lemma_no_char_concat(path, vpart, '?');
            assert(withq =~= withv);
            lemma_last_none(withq, '?');
            assert(split_qualifiers(withq) == Result::Ok::<_, ParseError>(
                (withq, Option::None::<Seq<(Seq<char>, Seq<char>)>>),
            ));
        },
    }
}

/// The third split takes the version off exactly.
proof fn lemma_rt_version(p: PurlParts)
    requires
        wf_parts(p),
    ensures
        split_version(ser_withv(p)) == Result::Ok::<_, ParseError>((ser_path(p), p.version)),
{
    reveal_strlit("/");
    reveal_strlit("@");
    let nspart = ser_nspart(p);
    let pre = ser_pre(p);
    let path = ser_path(p);
    let vpart = ser_vpart(p);
    let withv = ser_withv(p);
    lemma_type_chars_clean(p.ty);
    assert(path[pre.len() - 1] == '/');
    match p.version {
        Option::Some(v) => {
            let i2 = path.len() as int;
            assert(withv[i2] == '@');
            assert forall|j: int| i2 < j < withv.len() implies withv[j] != '@' by {
                assert(withv[j] == v[j - i2 - 1]);
            }
            lemma_last_at(withv, '@', i2);
            withv.index_of_last_ensures('/');
            assert(withv.contains('/')) by {
                assert(withv[pre.len() - 1] == '/');
            }
            let j = withv.index_of_last('/')->Some_0;
            if j >= i2 {
                if j > i2 {
                    assert(withv[j] == v[j - i2 - 1]);
                }
                assert(false);
            }
            assert(withv.take(i2) =~= path);
            assert(withv.skip(i2 + 1) =~= v);
            assert(split_version(withv) == Result::Ok::<_, ParseError>(
                (path, Option::Some(v)),
            ));
        },
        Option::None => {
            assert(withv =~= path);
            let lastslash = pre.len() - 1;
            path.index_of_last_ensures('@');
            if path.index_of_last('@') is Some {
                let i = path.index_of_last('@')->Some_0;
                assert(path[i] == '@');
                if i >= pre.len() {
                    assert(path[i] == p.name[i - pre.len()]);
                    assert(false);
                }
                if i < pre.len() - 1 {
                } else {
                    assert(false);
                }
                path.index_of_last_ensures('/');
                assert(path.contains('/')) by {
                    assert(path[lastslash] == '/');
                }
                let j = path.index_of_last('/')->Some_0;
                if j < lastslash {
                    assert(path[lastslash] != '/');
                }
                assert(j >= lastslash);
                assert(j > i);
                assert(split_version(path) == Result::Ok::<_, ParseError>(
                    (path, Option::None::<Seq<char>>),
                ));
            } else {
                assert(split_version(path) == Result::Ok::<_, ParseError>(
                    (path, Option::None::<Seq<char>>),
                ));
            }
        },
    }
}

/// The last stage reads type, namespace and name back exactly.
proof fn lemma_rt_path(p: PurlParts)
    requires
        wf_parts(p),
    ensures
        parse_path(ser_path(p)) == Result::Ok::<_, ParseError>(
            (p.ty, p.namespace, p.name),
        ),
{
    reveal_strlit("/");
    let nspart = ser_nspart(p);
    let pre = ser_pre(p);
    let path = ser_path(p);
    lemma_type_chars_clean(p.ty);
    let t = p.ty.len() as int;
    assert(path[t] == '/') by {
        assert((p.ty + "/"@)[t] == '/');
    }
    assert forall|j: int| 0 <= j < t implies path[j] != '/' by {
        assert(path[j] == p.ty[j]);
    }
    lemma_first_at(path, '/', t);
    assert(path.take(t) =~= p.ty);
    let rest = path.skip(t + 1);
    assert(rest =~= nspart + p.name);
    match p.namespace {
        Option::Some(ns) => {
            let j0 = ns.len() as int;
            assert(rest[j0] == '/') by {
                assert(rest =~= ns + "/"@ + p.name);
            }
            assert forall|k: int| j0 < k < rest.len() implies rest[k] != '/' by {
                assert(rest[k] == p.name[k - j0 - 1]);
            }
            lemma_last_at(rest, '/', j0);
            assert(j0 + 1 < rest.len());
            assert(j0 > 0);
            assert(rest.take(j0) =~= ns);
            assert(rest.skip(j0 + 1) =~= p.name);
            assert(parse_path(path) == Result::Ok::<_, ParseError>(
                (p.ty, Option::Some(ns), p.name),
            ));
        },
        Option::None => {
            assert(rest =~= p.name);
            lemma_last_none(rest, '/');
            assert(rest.len() > 0);
            assert(parse_path(path) == Result::Ok::<_, ParseError>(
                (p.ty, Option::None::<Seq<char>>, p.name),
            ));
        },
    }
}

/// Round trip: a well-formed record's serialized string parses back to
/// exactly that record, so nothing a successful parse extracts is lost or
/// reshaped by `serialize`.
pub proof fn lemma_serialize_parse(p: PurlParts)
    requires
        wf_parts(p),
    ensures
        spec_parse(spec_serialize(p)) == Result::Ok::<PurlParts, ParseError>(p),
{
    reveal_strlit("pkg:");
    let body = ser_body(p);
    let s = spec_serialize(p);
    assert(s =~= "pkg:"@ + body);
    assert(s.len() >= 4);
    assert(s.take(4) =~= "pkg:"@);
    assert(s.skip(4) =~= body);
    lemma_rt_percent(p);
    lemma_rt_subpath(p);
    lemma_rt_quals(p);
    lemma_rt_version(p);
    lemma_rt_path(p);
    assert(spec_parse(s)->Ok_0 =~~= p);
}

/// A prefix cut at a non-hexadecimal character stays percent-valid: no `%`
/// window can reach the cut.
proof fn lemma_percent_prefix(r: Seq<char>, b: int)
    requires
        percent_ok(r),
        0 <= b <= r.len(),
        b < r.len() ==> !is_hex_digit(r[b]),
    ensures
        percent_ok(r.take(b)),
{
    let s = r.take(b);
    assert forall|i: int| 0 <= i < s.len() && #[trigger] s[i] == '%' implies i + 2 < s.len()
        && is_hex_digit(s[i + 1]) && is_hex_digit(s[i + 2]) by {
        assert(r[i] == '%');
        if i + 1 == b {
            assert(is_hex_digit(r[b]));
        }
        if i + 2 == b {
            assert(is_hex_digit(r[b]));
        }
        assert(s[i + 1] == r[i + 1]);
        assert(s[i + 2] == r[i + 2]);
    }
}

/// A suffix stays percent-valid: windows only reach forward.
proof fn lemma_percent_suffix(r: Seq<char>, a: int)
    requires
        percent_ok(r),
        0 <= a <= r.len(),
    ensures
        percent_ok(r.skip(a)),
{
    let s = r.skip(a);
    assert forall|i: int| 0 <= i < s.len() && #[trigger] s[i] == '%' implies i + 2 < s.len()
        && is_hex_digit(s[i + 1]) && is_hex_digit(s[i + 2]) by {
        assert(r[a + i] == '%');
        assert(s[i + 1] == r[a + i + 1]);
        assert(s[i + 2] == r[a + i + 2]);
    }
}

/// Every key and value a successful qualifier parse yields avoids `c`
/// whenever the qualifier string does.
proof fn lemma_parse_qualifiers_chars(q: Seq<char>, c: char)
    requires
        parse_qualifiers(q) is Ok,
        no_char(q, c),
    ensures
        forall|i: int|
            0 <= i < parse_qualifiers(q)->Ok_0.len() ==> no_char(
                #[trigger] parse_qualifiers(q)->Ok_0[i].0,
                c,
            ) && no_char(parse_qualifiers(q)->Ok_0[i].1, c),
    decreases q.len(),
{
    q.index_of_first_ensures('&');
    let qs = parse_qualifiers(q)->Ok_0;
    match q.index_of_first('&') {
        Option::None => {
            q.index_of_first_ensures('=');
            let i = q.index_of_first('=')->Some_0;
            assert(no_char(q.take(i), c));
            assert(no_char(q.skip(i + 1), c));
            assert(qs =~= seq![(q.take(i), q.skip(i + 1))]);
        },
        Option::Some(j) => {
            let comp = q.take(j);
            let rest = q.skip(j + 1);
            assert(no_char(comp, c));
            assert(no_char(rest, c));
            comp.index_of_first_ensures('=');
            let i = comp.index_of_first('=')->Some_0;
            assert(no_char(comp.take(i), c));
            assert(no_char(comp.skip(i + 1), c));
            lemma_parse_qualifiers_chars(rest, c);
            let rqs = parse_qualifiers(rest)->Ok_0;
            assert(qs =~= seq![(comp.take(i), comp.skip(i + 1))] + rqs);
            assert(forall|k: int| 1 <= k < qs.len() ==> qs[k] == rqs[k - 1]);
        },
    }
}

/// A successful qualifier parse yields a non-empty list whose keys are
/// non-empty and free of `=` and `&`, whose values are free of `&`, and
/// whose keys and values are percent-valid when the string is.
proof fn lemma_parse_qualifiers_wf(q: Seq<char>)
    requires
        parse_qualifiers(q) is Ok,
        percent_ok(q),
    ensures
        parse_qualifiers(q)->Ok_0.len() > 0,
        forall|i: int|
            0 <= i < parse_qualifiers(q)->Ok_0.len() ==> {
                let p = #[trigger] parse_qualifiers(q)->Ok_0[i];
                &&& p.0.len() > 0
                &&& no_char(p.0, '=')
                &&& no_char(p.0, '&')
                &&& no_char(p.1, '&')
                &&& percent_ok(p.0)
                &&& percent_ok(p.1)
            },
    decreases q.len(),
{
    q.index_of_first_ensures('&');
    let qs = parse_qualifiers(q)->Ok_0;
    match q.index_of_first('&') {
        Option::None => {
            q.index_of_first_ensures('=');
            let i = q.index_of_first('=')->Some_0;
            let key = q.take(i);
            let value = q.skip(i + 1);
            assert(no_char(key, '='));
            assert(no_char(key, '&'));
            assert(no_char(value, '&'));
            lemma_percent_prefix(q, i);
            lemma_percent_suffix(q, i + 1);
            assert(qs =~= seq![(key, value)]);
        },
        Option::Some(j) => {
            let comp = q.take(j);
            let rest = q.skip(j + 1);
            lemma_percent_prefix(q, j);
            lemma_percent_suffix(q, j + 1);
            comp.index_of_first_ensures('=');
            let i = comp.index_of_first('=')->Some_0;
            let key = comp.take(i);
            let value = comp.skip(i + 1);
            assert(no_char(key, '='));
            assert(forall|k: int| 0 <= k < comp.len() ==> comp[k] != '&');
            assert(no_char(key, '&'));
            assert(no_char(value, '&'));
            lemma_percent_prefix(comp, i);
            lemma_percent_suffix(comp, i + 1);
            lemma_parse_qualifiers_wf(rest);
            let rqs = parse_qualifiers(rest)->Ok_0;
            assert(qs =~= seq![(key, value)] + rqs);
            assert(forall|k: int| 1 <= k < qs.len() ==> qs[k] == rqs[k - 1]);
        },
    }
}

/// `c` survives into a prefix.
proof fn lemma_no_char_take(r: Seq<char>, b: int, c: char)
    requires
        no_char(r, c),
        0 <= b <= r.len(),
    ensures
        no_char(r.take(b), c),
{
    assert forall|k: int| 0 <= k < r.take(b).len() implies r.take(b)[k] != c by {
        assert(r.take(b)[k] == r[k]);
    }
}

/// `c` survives into a suffix.
proof fn lemma_no_char_skip(r: Seq<char>, a: int, c: char)
    requires
        no_char(r, c),
        0 <= a <= r.len(),
    ensures
        no_char(r.skip(a), c),
{
    assert forall|k: int| 0 <= k < r.skip(a).len() implies r.skip(a)[k] != c by {
        assert(r.skip(a)[k] == r[a + k]);
    }
}

/// What the subpath split guarantees of its pieces.
proof fn lemma_wf_stage1(r: Seq<char>)
    requires
        split_subpath(r) is Ok,
        percent_ok(r),
    ensures
        percent_ok(split_subpath(r)->Ok_0.0),
        match split_subpath(r)->Ok_0.1 {
            Option::Some(sp) => sp.len() > 0 && no_char(sp, '#') && percent_ok(sp),
            Option::None => split_subpath(r)->Ok_0.0 == r && no_char(r, '#'),
        },
{
    r.index_of_last_ensures('#');
    match r.index_of_last('#') {
        Option::None => {},
        Option::Some(i0) => {
            let sp = r.skip(i0 + 1);
            assert forall|k: int| 0 <= k < sp.len() implies sp[k] != '#' by {
                assert(sp[k] == r[i0 + 1 + k]);
            }
            lemma_percent_suffix(r, i0 + 1);
            lemma_percent_prefix(r, i0);
        },
    }
}

/// What the qualifier split guarantees of its pieces.
proof fn lemma_wf_stage2(r1: Seq<char>)
    requires
        split_qualifiers(r1) is Ok,
        percent_ok(r1),
    ensures
        percent_ok(split_qualifiers(r1)->Ok_0.0),
        no_char(r1, '#') ==> no_char(split_qualifiers(r1)->Ok_0.0, '#'),
        match split_qualifiers(r1)->Ok_0.1 {
            Option::Some(qs) => {
                &&& qs.len() > 0
                &&& forall|i: int| 0 <= i < qs.len() ==> wf_qualifier(#[trigger] qs[i])
                &&& (no_char(r1, '#') ==> forall|i: int|
                    0 <= i < qs.len() ==> no_char(#[trigger] qs[i].0, '#') && no_char(
                        qs[i].1,
                        '#',
                    ))
            },
            Option::None => split_qualifiers(r1)->Ok_0.0 == r1 && no_char(r1, '?'),
        },
{
    r1.index_of_last_ensures('?');
    match r1.index_of_last('?') {
        Option::None => {},
        Option::Some(i1) => {
            let qstr = r1.skip(i1 + 1);
            let r2 = r1.take(i1);
            lemma_percent_suffix(r1, i1 + 1);
            lemma_percent_prefix(r1, i1);
            lemma_parse_qualifiers_wf(qstr);
            assert forall|k: int| 0 <= k < qstr.len() implies qstr[k] != '?' by {
                assert(qstr[k] == r1[i1 + 1 + k]);
            }
            lemma_parse_qualifiers_chars(qstr, '?');
            if no_char(r1, '#') {
                lemma_no_char_skip(r1, i1 + 1, '#');
                lemma_no_char_take(r1, i1, '#');
                lemma_parse_qualifiers_chars(qstr, '#');
            }
        },
    }
}

/// What the version split guarantees of its pieces.  When no version is
/// taken, every `@` of the remainder is followed by a later `/`.
proof fn lemma_wf_stage3(r2: Seq<char>)
    requires
        split_version(r2) is Ok,
        percent_ok(r2),
    ensures
        percent_ok(split_version(r2)->Ok_0.0),
        no_char(r2, '#') ==> no_char(split_version(r2)->Ok_0.0, '#'),
        no_char(r2, '?') ==> no_char(split_version(r2)->Ok_0.0, '?'),
        match split_version(r2)->Ok_0.1 {
            Option::Some(v) => v.len() > 0 && no_char(v, '@') && no_char(v, '/') && percent_ok(
                v,
            ) && (no_char(r2, '#') ==> no_char(v, '#')) && (no_char(r2, '?') ==> no_char(
                v,
                '?',
            )),
            Option::None => split_version(r2)->Ok_0.0 == r2 && (forall|k: int|
                0 <= k < r2.len() && r2[k] == '@' ==> exists|j: int|
                    k < j < r2.len() && r2[j] == '/'),
        },
{
    r2.index_of_last_ensures('@');
    r2.index_of_last_ensures('/');
    match r2.index_of_last('@') {
        Option::None => {
            assert(split_version(r2)->Ok_0.1 is None);
            assert(forall|k: int| 0 <= k < r2.len() ==> r2[k] != '@');
        },
        Option::Some(i2) => {
            let after = match r2.index_of_last('/') {
                Option::Some(j) => j < i2,
                Option::None => true,
            };
            if after {
                let v = r2.skip(i2 + 1);
                assert forall|k: int| 0 <= k < v.len() implies v[k] != '@' by {
                    assert(v[k] == r2[i2 + 1 + k]);
                }
                assert forall|k: int| 0 <= k < v.len() implies v[k] != '/' by {
                    assert(v[k] == r2[i2 + 1 + k]);
                    match r2.index_of_last('/') {
                        Option::Some(j) => {
                            assert(j < i2);
                        },
                        Option::None => {},
                    }
                }
                lemma_percent_suffix(r2, i2 + 1);
                lemma_percent_prefix(r2, i2);
                if no_char(r2, '#') {
                    lemma_no_char_skip(r2, i2 + 1, '#');
                    lemma_no_char_take(r2, i2, '#');
                }
                if no_char(r2, '?') {
                    lemma_no_char_skip(r2, i2 + 1, '?');
                    lemma_no_char_take(r2, i2, '?');
                }
            } else {
                let j = r2.index_of_last('/')->Some_0;
                assert(j >= i2);
                assert(j != i2);
                assert forall|k: int| 0 <= k < r2.len() && r2[k] == '@' implies exists|jj: int|
                    k < jj < r2.len() && r2[jj] == '/' by {
                    assert(k <= i2);
                    assert(r2[j] == '/');
                    assert(k < j < r2.len());
                }
            }
        },
    }
}

/// What the path parse guarantees of type, namespace and name.
proof fn lemma_wf_stage4(r3: Seq<char>)
    requires
        parse_path(r3) is Ok,
        percent_ok(r3),
    ensures
        ({
            let (ty, ns, name) = parse_path(r3)->Ok_0;
            &&& valid_type(ty)
            &&& name.len() > 0
            &&& no_char(name, '/')
            &&& percent_ok(name)
            &&& match ns {
                Option::Some(n) => n.len() > 0 && percent_ok(n) && (no_char(r3, '#')
                    ==> no_char(n, '#')) && (no_char(r3, '?') ==> no_char(n, '?')),
                Option::None => true,
            }
            &&& (no_char(r3, '#') ==> no_char(name, '#'))
            &&& (no_char(r3, '?') ==> no_char(name, '?'))
            &&& ((forall|k: int|
                0 <= k < r3.len() && r3[k] == '@' ==> exists|j: int|
                    k < j < r3.len() && r3[j] == '/') ==> no_char(name, '@'))
        }),
{
    r3.index_of_first_ensures('/');
    let t = r3.index_of_first('/')->Some_0;
    let rest = r3.skip(t + 1);
    lemma_percent_suffix(r3, t + 1);
    if no_char(r3, '#') {
        lemma_no_char_skip(r3, t + 1, '#');
    }
    if no_char(r3, '?') {
        lemma_no_char_skip(r3, t + 1, '?');
    }
    rest.index_of_last_ensures('/');
    let at_followed = forall|k: int|
        0 <= k < r3.len() && r3[k] == '@' ==> exists|j: int| k < j < r3.len() && r3[j] == '/';
    match rest.index_of_last('/') {
        Option::None => {
            let name = rest;
            assert(no_char(name, '/'));
            if at_followed {
                assert forall|k: int| 0 <= k < name.len() implies name[k] != '@' by {
                    assert(name[k] == r3[t + 1 + k]);
                    if r3[t + 1 + k] == '@' {
                        let j = choose|j: int|
                            t + 1 + k < j < r3.len() && r3[j] == '/';
                        assert(rest[j - t - 1] == '/');
                    }
                }
            }
        },
        Option::Some(j4) => {
            let name = rest.skip(j4 + 1);
            let ns = rest.take(j4);
            assert forall|k: int| 0 <= k < name.len() implies name[k] != '/' by {
                assert(name[k] == rest[j4 + 1 + k]);
            }
            lemma_percent_suffix(rest, j4 + 1);
            lemma_percent_prefix(rest, j4);
            if no_char(r3, '#') {
                lemma_no_char_skip(rest, j4 + 1, '#');
                lemma_no_char_take(rest, j4, '#');
            }
            if no_char(r3, '?') {
                lemma_no_char_skip(rest, j4 + 1, '?');
                lemma_no_char_take(rest, j4, '?');
            }
            if at_followed {
                assert forall|k: int| 0 <= k < name.len() implies name[k] != '@' by {
                    assert(name[k] == r3[t + 1 + j4 + 1 + k]);
                    if r3[t + 1 + j4 + 1 + k] == '@' {
                        let j = choose|j: int|
                            t + 1 + j4 + 1 + k < j < r3.len() && r3[j] == '/';
                        assert(rest[j - t - 1] == '/');
                        assert(name[j - t - 1 - j4 - 1] == '/');
                    }
                }
            }
        },
    }
}

/// Every record a successful parse yields is well-formed, so the round trip
/// of `lemma_serialize_parse` applies to it.
pub proof fn lemma_parse_wf(s: Seq<char>)
    requires
        spec_parse(s) is Ok,
    ensures
        wf_parts(spec_parse(s)->Ok_0),
{
    let r = s.skip(4);
    let st1 = split_subpath(r)->Ok_0;
    let st2 = split_qualifiers(st1.0)->Ok_0;
    let st3 = split_version(st2.0)->Ok_0;
    lemma_wf_stage1(r);
    lemma_wf_stage2(st1.0);
    lemma_wf_stage3(st2.0);
    lemma_wf_stage4(st3.0);
    if st1.1 is None {
        if st2.1 is Some {
            assert(no_char(st1.0, '#'));
        }
    }
}

/// Round trip: whenever parsing succeeds, serializing the parsed record and
/// parsing again returns the identical record.
pub proof fn lemma_parse_round_trip(s: Seq<char>)
    requires
        spec_parse(s) is Ok,
    ensures
        spec_parse(spec_serialize(spec_parse(s)->Ok_0)) == spec_parse(s),
{
    lemma_parse_wf(s);
    lemma_serialize_parse(spec_parse(s)->Ok_0);
}

} // verus!
