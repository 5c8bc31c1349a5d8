use vstd::prelude::*;
use vstd::string::StringSliceAdditionalSpecFns;
use vstd::utf8::{decode_utf8, decode_utf8_encode_utf8, pop_first_scalar, valid_utf8};

use crate::cursor::{is_eof, peek1, take1, take_bytes_while, take_string_while, Cursor};
use crate::version::{Identifier, IdentifierView, Version, VersionView, ids_view};

verus! {

/// What went wrong while reading a version or an identifier.
#[derive(Debug, Clone, Copy, PartialEq, Eq, Structural)]
pub enum ParseError {
    /// Something other than what the grammar allows stands at this point.
    Invalid { found: Option<char> },
    /// A numeric component is empty or does not fit in 64 bits.
    InvalidNumericRange,
    /// The input ended where more was required.
    UnexpectedEof,
    /// The consumed bytes are not valid UTF-8.
    Io,
}

/// The classes of bytes that the grammar reads runs of.
pub enum ByteClass {
    Digit,
    Alphanumeric,
}

pub open spec fn is_digit(b: u8) -> bool {
    0x30 <= b <= 0x39
}

pub open spec fn is_alphanumeric(b: u8) -> bool {
    is_digit(b) || (0x41 <= b <= 0x5a) || (0x61 <= b <= 0x7a)
}

pub open spec fn in_class(b: u8, class: ByteClass) -> bool {
    match class {
        ByteClass::Digit => is_digit(b),
        ByteClass::Alphanumeric => is_alphanumeric(b),
    }
}

/// The length of the longest prefix of `s` whose bytes are all in `class`.
pub open spec fn run_len(s: Seq<u8>, class: ByteClass) -> nat
    decreases s.len(),
{
    if s.len() > 0 && in_class(s[0], class) {
        1 + run_len(s.drop_first(), class)
    } else {
        0
    }
}

/// The value of a sequence of decimal digits.
pub open spec fn decimal(d: Seq<u8>) -> nat
    decreases d.len(),
{
    if d.len() == 0 {
        0
    } else {
        decimal(d.drop_last()) * 10 + (d.last() - 0x30) as nat
    }
}

/// The error for input `s` where a token was required: the end of input, or
/// the byte that stands there instead.
pub open spec fn unexpected(s: Seq<u8>) -> ParseError {
    if s.len() == 0 {
        ParseError::UnexpectedEof
    } else {
        ParseError::Invalid { found: Some(s[0] as char) }
    }
}

/// A numeric component at the front of `s`: its value and the rest of `s`.
/// Leading zeros are allowed.
pub open spec fn numeric_spec(s: Seq<u8>) -> Result<(u64, Seq<u8>), ParseError> {
    let k = run_len(s, ByteClass::Digit);
    let v = decimal(s.take(k as int));
    if k == 0 || v > u64::MAX {
        Err(ParseError::InvalidNumericRange)
    } else {
        Ok((v as u64, s.skip(k as int)))
    }
}

/// The identifier read from a non-empty run of alphanumeric bytes: a number
/// if the run is all digits and fits in 64 bits, else the text.
pub open spec fn identifier_of(run: Seq<u8>) -> IdentifierView {
    if run_len(run, ByteClass::Digit) == run.len() && decimal(run) <= u64::MAX {
        IdentifierView::Number(decimal(run) as u64)
    } else {
        IdentifierView::Text(decode_utf8(run))
    }
}

/// An identifier at the front of `s`, and the rest of `s`.
pub open spec fn part_spec(s: Seq<u8>) -> Result<(IdentifierView, Seq<u8>), ParseError> {
    let k = run_len(s, ByteClass::Alphanumeric);
    if k == 0 {
        Err(unexpected(s))
    } else {
        Ok((identifier_of(s.take(k as int)), s.skip(k as int)))
    }
}

/// One or more identifiers separated by dots at the front of `s`, and the
/// rest of `s`. An empty identifier is an error, so a qualifier made only of
/// separators (`1.2.3-`, `1.2.3-a.`, `1.2.3-.a`) is rejected.
pub open spec fn parts_spec(s: Seq<u8>) -> Result<(Seq<IdentifierView>, Seq<u8>), ParseError>
    decreases s.len(),
    via parts_spec_decreases
{
    let k = run_len(s, ByteClass::Alphanumeric);
    if k == 0 {
        Err(unexpected(s))
    } else {
        let id = identifier_of(s.take(k as int));
        let rest = s.skip(k as int);
        if rest.len() > 0 && rest[0] == 0x2e {
            match parts_spec(rest.drop_first()) {
                Ok((ids, r)) => Ok((seq![id] + ids, r)),
                Err(e) => Err(e),
            }
        } else {
            Ok((seq![id], rest))
        }
    }
}

#[via_fn]
proof fn parts_spec_decreases(s: Seq<u8>) {
    lemma_run_len_bound(s, ByteClass::Alphanumeric);
}

/// Dot-separated identifiers that take up all of `s`.
pub open spec fn build_spec(s: Seq<u8>) -> Result<Seq<IdentifierView>, ParseError> {
    match parts_spec(s) {
        Ok((ids, r)) => if r.len() == 0 {
            Ok(ids)
        } else {
            Err(unexpected(r))
        },
        Err(e) => Err(e),
    }
}

/// The prerelease and build identifiers read from the non-empty text `s`
/// that follows the patch number. The prerelease may start without a `-`.
pub open spec fn qualifier_spec(s: Seq<u8>) -> Result<
    (Seq<IdentifierView>, Seq<IdentifierView>),
    ParseError,
> {
    if s[0] == 0x2b {
        match build_spec(s.drop_first()) {
            Ok(b) => Ok((seq![], b)),
            Err(e) => Err(e),
        }
    } else {
        let body = if s[0] == 0x2d {
            s.drop_first()
        } else {
            s
        };
        match parts_spec(body) {
            Ok((pre, r)) => if r.len() == 0 {
                Ok((pre, seq![]))
            } else if r[0] == 0x2b {
                match build_spec(r.drop_first()) {
                    Ok(b) => Ok((pre, b)),
                    Err(e) => Err(e),
                }
            } else {
                Err(unexpected(r))
            },
            Err(e) => Err(e),
        }
    }
}

pub open spec fn version_of(
    major: u64,
    minor: u64,
    patch: u64,
    prerelease: Seq<IdentifierView>,
    build: Seq<IdentifierView>,
) -> VersionView {
    VersionView { major, minor, patch, prerelease, build }
}

/// The version that the bytes `s` denote, or the error met in reading them.
pub open spec fn version_spec(s: Seq<u8>) -> Result<VersionView, ParseError> {
    if s.len() == 0 {
        Err(ParseError::UnexpectedEof)
    } else {
        match numeric_spec(s) {
            Err(e) => Err(e),
            Ok((major, r1)) => if r1.len() == 0 {
                Ok(version_of(major, 0, 0, seq![], seq![]))
            } else if r1[0] != 0x2e {
                Err(unexpected(r1))
            } else {
                match numeric_spec(r1.drop_first()) {
                    Err(e) => Err(e),
                    Ok((minor, r2)) => if r2.len() == 0 {
                        Ok(version_of(major, minor, 0, seq![], seq![]))
                    } else if r2[0] != 0x2e {
                        Err(unexpected(r2))
                    } else {
                        match numeric_spec(r2.drop_first()) {
                            Err(e) => Err(e),
                            Ok((patch, r3)) => if r3.len() == 0 {
                                Ok(version_of(major, minor, patch, seq![], seq![]))
                            } else {
                                match qualifier_spec(r3) {
                                    Ok((pre, b)) => Ok(version_of(major, minor, patch, pre, b)),
                                    Err(e) => Err(e),
                                }
                            },
                        }
                    },
                }
            },
        }
    }
}

pub proof fn lemma_run_len_bound(s: Seq<u8>, class: ByteClass)
    ensures
        run_len(s, class) <= s.len(),
    decreases s.len(),
{
    if s.len() > 0 && in_class(s[0], class) {
        lemma_run_len_bound(s.drop_first(), class);
    }
}

/// `Ok` results of `r` with `ids` put before their identifiers.
pub open spec fn prepend(
    ids: Seq<IdentifierView>,
    r: Result<(Seq<IdentifierView>, Seq<u8>), ParseError>,
) -> Result<(Seq<IdentifierView>, Seq<u8>), ParseError> {
    match r {
        Ok((more, rest)) => Ok((ids + more, rest)),
        Err(e) => Err(e),
    }
}

pub(crate) proof fn lemma_run_len_exact(s: Seq<u8>, class: ByteClass, k: int)
    requires
        0 <= k <= s.len(),
        forall|i: int| 0 <= i < k ==> in_class(#[trigger] s[i], class),
        k < s.len() ==> !in_class(s[k], class),
    ensures
        run_len(s, class) == k,
    decreases k,
{
    if k > 0 {
        let t = s.drop_first();
        assert forall|i: int| 0 <= i < k - 1 implies in_class(#[trigger] t[i], class) by {
            assert(t[i] == s[i + 1]);
        }
        if k - 1 < t.len() {
            assert(t[k - 1] == s[k]);
        }
        lemma_run_len_exact(t, class, k - 1);
    }
}

pub(crate) proof fn lemma_run_len_in_class(s: Seq<u8>, class: ByteClass, i: int)
    requires
        0 <= i < run_len(s, class),
    ensures
        in_class(s[i], class),
    decreases i,
{
    lemma_run_len_bound(s, class);
    if i > 0 {
        lemma_run_len_in_class(s.drop_first(), class, i - 1);
    }
}

proof fn lemma_ascii_valid_utf8(b: Seq<u8>)
    requires
        forall|i: int| 0 <= i < b.len() ==> #[trigger] b[i] <= 0x7f,
    ensures
        valid_utf8(b),
    decreases b.len(),
{
    if b.len() > 0 {
        let b0 = b[0];
        assert(b0 & 0x7f == b0) by (bit_vector)
            requires
                b0 <= 0x7f,
        ;
        assert(pop_first_scalar(b) =~= b.drop_first());
        lemma_ascii_valid_utf8(b.drop_first());
    }
}

proof fn lemma_decimal_prefix(d: Seq<u8>, i: int)
    requires
        0 <= i <= d.len(),
        forall|j: int| 0 <= j < d.len() ==> is_digit(#[trigger] d[j]),
    ensures
        decimal(d.take(i)) <= decimal(d),
    decreases d.len(),
{
    if i < d.len() {
        let p = d.drop_last();
        assert(d.take(i) =~= p.take(i));
        lemma_decimal_prefix(p, i);
    } else {
        assert(d.take(i) =~= d);
    }
}

fn byte_is_digit(b: u8) -> (r: bool)
    ensures
        r == is_digit(b),
{
    0x30 <= b && b <= 0x39
}

fn byte_is_alphanumeric(b: u8) -> (r: bool)
    ensures
        r == is_alphanumeric(b),
{
    byte_is_digit(b) || (0x41 <= b && b <= 0x5a) || (0x61 <= b && b <= 0x7a)
}

/// The value of a sequence of decimal digits, if it fits in 64 bits.
fn decimal_value(d: &[u8]) -> (r: Option<u64>)
    requires
        forall|j: int| 0 <= j < d@.len() ==> is_digit(#[trigger] d@[j]),
    ensures
        decimal(d@) <= u64::MAX ==> r == Some(decimal(d@) as u64),
        decimal(d@) > u64::MAX ==> r is None,
{
    let mut acc: u64 = 0;
    let mut i: usize = 0;
    while i < d.len()
        invariant
            i <= d@.len(),
            acc == decimal(d@.take(i as int)),
            forall|j: int| 0 <= j < d@.len() ==> is_digit(#[trigger] d@[j]),
        decreases d@.len() - i,
    {
        let ghost next = d@.take(i + 1);
        assert(next.drop_last() =~= d@.take(i as int));
        match acc.checked_mul(10) {
            Some(m) => match m.checked_add((d[i] - 0x30) as u64) {
                Some(v) => {
                    acc = v;
                },
                None => {
                    proof {
                        lemma_decimal_prefix(d@, i + 1);
                    }
                    return None;
                },
            },
            None => {
                proof {
                    lemma_decimal_prefix(d@, i + 1);
                }
                return None;
            },
        }
        i = i + 1;
    }
    assert(d@.take(i as int) =~= d@);
    Some(acc)
}

/// Reads a numeric component: any run of digits, leading zeros included.
pub fn parse_numeric_range_loose(s: &mut Cursor) -> (r: Result<u64, ParseError>)
    requires
        old(s).wf(),
    ensures
        final(s).wf(),
        match numeric_spec(old(s)@) {
            Ok((v, rest)) => r == Ok::<u64, ParseError>(v) && final(s)@ == rest,
            Err(e) => r == Err::<u64, ParseError>(e),
        },
{
    let digit = |b: u8| -> (r: bool)
        ensures
            r == is_digit(b),
        { byte_is_digit(b) };
    let run = take_bytes_while(s, digit);
    proof {
        assert forall|i: int| 0 <= i < run@.len() implies in_class(
            #[trigger] old(s)@[i],
            ByteClass::Digit,
        ) by {
            assert(run@[i] == old(s)@[i]);
        }
        lemma_run_len_exact(old(s)@, ByteClass::Digit, run@.len() as int);
    }
    if run.len() == 0 {
        return Err(ParseError::InvalidNumericRange);
    }
    match decimal_value(run.as_slice()) {
        Some(v) => Ok(v),
        None => Err(ParseError::InvalidNumericRange),
    }
}

/// Reads one identifier: a non-empty run of ASCII letters and digits, a
/// number if it is all digits and fits in 64 bits.
pub fn parse_part(s: &mut Cursor) -> (r: Result<Identifier, ParseError>)
    requires
        old(s).wf(),
    ensures
        final(s).wf(),
        match part_spec(old(s)@) {
            Ok((id, rest)) => (r matches Ok(x) && x@ == id) && final(s)@ == rest,
            Err(e) => r == Err::<Identifier, ParseError>(e),
        },
{
    let alnum = |b: u8| -> (r: bool)
        ensures
            r == is_alphanumeric(b),
        { byte_is_alphanumeric(b) };
    let ghost start = old(s)@;
    let ghost k = run_len(start, ByteClass::Alphanumeric) as int;
    let taken = take_string_while(s, alnum);
    proof {
        let k2 = choose|k2: int|
            #![trigger start.take(k2)]
            {
                &&& 0 <= k2 <= start.len()
                &&& s@ == start.skip(k2)
                &&& forall|i: int| 0 <= i < k2 ==> alnum.ensures((#[trigger] start[i],), true)
                &&& k2 < start.len() ==> alnum.ensures((start[k2],), false)
                &&& valid_utf8(start.take(k2)) ==> (taken matches Ok(t) && t@ == decode_utf8(
                    start.take(k2),
                ))
                &&& !valid_utf8(start.take(k2)) ==> taken == Err::<String, ParseError>(
                    ParseError::Io,
                )
            };
        assert forall|i: int| 0 <= i < k2 implies in_class(
            #[trigger] start[i],
            ByteClass::Alphanumeric,
        ) by {
            assert(alnum.ensures((start[i],), true));
        }
        lemma_run_len_exact(start, ByteClass::Alphanumeric, k2);
        assert forall|j: int| 0 <= j < k implies #[trigger] start.take(k)[j] <= 0x7f by {
            assert(is_alphanumeric(start[j]));
        }
        lemma_ascii_valid_utf8(start.take(k));
        decode_utf8_encode_utf8(start.take(k));
    }
    let part = match taken {
        Ok(part) => part,
        Err(e) => {
            return Err(e);
        },
    };
    let run = part.as_str().as_bytes();
    assert(run@ == start.take(k));
    if run.len() == 0 {
        return match peek1(s) {
            Some(b) => Err(ParseError::Invalid { found: Some(b as char) }),
            None => Err(ParseError::UnexpectedEof),
        };
    }
    let mut all_digits = true;
    let mut i: usize = 0;
    while i < run.len()
        invariant
            i <= run@.len(),
            all_digits == (forall|j: int| 0 <= j < i ==> is_digit(#[trigger] run@[j])),
        decreases run@.len() - i,
    {
        if !byte_is_digit(run[i]) {
            all_digits = false;
        }
        i = i + 1;
    }
    proof {
        if all_digits {
            lemma_run_len_exact(run@, ByteClass::Digit, run@.len() as int);
        } else {
            lemma_run_len_bound(run@, ByteClass::Digit);
            if run_len(run@, ByteClass::Digit) == run@.len() {
                assert forall|j: int| 0 <= j < run@.len() implies is_digit(#[trigger] run@[j]) by {
                    lemma_run_len_in_class(run@, ByteClass::Digit, j);
                }
            }
        }
    }
    if all_digits {
        if let Some(v) = decimal_value(run) {
            return Ok(Identifier::Number(v));
        }
    }
    Ok(Identifier::String(part))
}

proof fn lemma_prepend_push(
    ids: Seq<IdentifierView>,
    id: IdentifierView,
    r: Result<(Seq<IdentifierView>, Seq<u8>), ParseError>,
)
    ensures
        prepend(ids.push(id), r) == prepend(ids, prepend(seq![id], r)),
{
    match r {
        Ok((more, rest)) => {
            assert(ids.push(id) + more =~= ids + (seq![id] + more));
        },
        Err(e) => {},
    }
}

/// Reads one or more identifiers separated by dots; an empty identifier is
/// an error.
pub fn parse_parts(s: &mut Cursor) -> (r: Result<Vec<Identifier>, ParseError>)
    requires
        old(s).wf(),
    ensures
        final(s).wf(),
        match parts_spec(old(s)@) {
            Ok((ids, rest)) => (r matches Ok(x) && ids_view(x@) == ids) && final(s)@ == rest,
            Err(e) => r == Err::<Vec<Identifier>, ParseError>(e),
        },
{
    let mut res: Vec<Identifier> = Vec::new();
    assert(prepend(ids_view(res@), parts_spec(s@)) == parts_spec(s@)) by {
        match parts_spec(s@) {
            Ok((more, rest)) => {
                assert(ids_view(res@) + more =~= more);
            },
            Err(e) => {},
        }
    }
    loop
        invariant
            s.wf(),
            prepend(ids_view(res@), parts_spec(s@)) == parts_spec(old(s)@),
        decreases s@.len(),
    {
        let ghost before = s@;
        proof {
            lemma_run_len_bound(before, ByteClass::Alphanumeric);
        }
        let id = match parse_part(s) {
            Ok(id) => id,
            Err(e) => {
                return Err(e);
            },
        };
        let ghost old_res = res@;
        res.push(id);
        assert(ids_view(res@) =~= ids_view(old_res).push(id@));
        match peek1(s) {
            Some(b) => {
                if b == 0x2e {
                    take1(s);
                    proof {
                        lemma_prepend_push(ids_view(old_res), id@, parts_spec(s@));
                    }
                } else {
                    assert(ids_view(old_res) + seq![id@] =~= ids_view(res@));
                    return Ok(res);
                }
            },
            None => {
                assert(ids_view(old_res) + seq![id@] =~= ids_view(res@));
                return Ok(res);
            },
        }
    }
}

/// What a parse of a version yields, against what the grammar gives.
pub open spec fn version_parsed_as(
    r: Result<Version, ParseError>,
    expected: Result<VersionView, ParseError>,
) -> bool {
    match expected {
        Ok(v) => r matches Ok(x) && x@ == v,
        Err(e) => r == Err::<Version, ParseError>(e),
    }
}

/// The error for the byte `b` found where the grammar allows none, or for
/// the end of input.
fn found_error(next: Option<u8>) -> (e: ParseError)
    ensures
        next is None ==> e == ParseError::UnexpectedEof,
        next matches Some(b) ==> e == (ParseError::Invalid { found: Some(b as char) }),
{
    match next {
        Some(b) => ParseError::Invalid { found: Some(b as char) },
        None => ParseError::UnexpectedEof,
    }
}

/// Reads the dot-separated build identifiers, which must take up the rest of
/// the input.
fn parse_build(s: &mut Cursor) -> (r: Result<Vec<Identifier>, ParseError>)
    requires
        old(s).wf(),
    ensures
        final(s).wf(),
        match build_spec(old(s)@) {
            Ok(ids) => r matches Ok(x) && ids_view(x@) == ids,
            Err(e) => r == Err::<Vec<Identifier>, ParseError>(e),
        },
{
    let build = parse_parts(s)?;
    if is_eof(s) {
        Ok(build)
    } else {
        Err(found_error(peek1(s)))
    }
}

impl Version {
    /// Reads a version from `text`. Loose forms are accepted: leading zeros,
    /// a missing minor or patch number (taken as 0), and a prerelease with no
    /// `-` in front. The whole text must be used up.
    pub fn parse(text: &str) -> (r: Result<Version, ParseError>)
        ensures
            version_parsed_as(r, version_spec(text.spec_bytes())),
    {
        let mut s = Cursor::new(text);
        if is_eof(&s) {
            return Err(ParseError::UnexpectedEof);
        }
        let major = parse_numeric_range_loose(&mut s)?;
        if is_eof(&s) {
            return Ok(Version::new(major, 0, 0));
        }
        match take1(&mut s) {
            Some(b) => {
                if b != 0x2e {
                    return Err(found_error(Some(b)));
                }
            },
            None => {
                return Err(ParseError::UnexpectedEof);
            },
        }
        let minor = parse_numeric_range_loose(&mut s)?;
        if is_eof(&s) {
            return Ok(Version::new(major, minor, 0));
        }
        match take1(&mut s) {
            Some(b) => {
                if b != 0x2e {
                    return Err(found_error(Some(b)));
                }
            },
            None => {
                return Err(ParseError::UnexpectedEof);
            },
        }
        let patch = parse_numeric_range_loose(&mut s)?;
        if is_eof(&s) {
            return Ok(Version::new(major, minor, patch));
        }
        let next = peek1(&s);
        if next == Some(0x2bu8) {
            take1(&mut s);
            let build = parse_build(&mut s)?;
            return Ok(Version::new_build(major, minor, patch, build));
        }
        if next == Some(0x2du8) {
            take1(&mut s);
        }
        let prerelease = parse_parts(&mut s)?;
        if is_eof(&s) {
            return Ok(Version::new_prerelease(major, minor, patch, prerelease));
        }
        match take1(&mut s) {
            Some(b) => {
                if b != 0x2b {
                    return Err(found_error(Some(b)));
                }
            },
            None => {
                return Err(ParseError::UnexpectedEof);
            },
        }
        let build = parse_build(&mut s)?;
        Ok(Version { major, minor, patch, prerelease, build })
    }
}

impl Identifier {
    /// Reads an identifier from the front of `text`; fails unless `text`
    /// starts with an ASCII letter or digit.
    pub fn parse(text: &str) -> (r: Result<Identifier, ParseError>)
        ensures
            match part_spec(text.spec_bytes()) {
                Ok((id, rest)) => r matches Ok(x) && x@ == id,
                Err(e) => r == Err::<Identifier, ParseError>(e),
            },
    {
        let mut s = Cursor::new(text);
        parse_part(&mut s)
    }
}

impl core::str::FromStr for Version {
    type Err = ParseError;

    fn from_str(s: &str) -> Result<Version, ParseError> {
        Version::parse(s)
    }
}

impl core::str::FromStr for Identifier {
    type Err = ParseError;

    fn from_str(s: &str) -> Result<Identifier, ParseError> {
        Identifier::parse(s)
    }
}

} // verus!
