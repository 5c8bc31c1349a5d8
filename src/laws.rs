use vstd::prelude::*;
use vstd::utf8::{decode_utf8, encode_utf8, encode_utf8_decode_utf8};

use crate::parse::{
    ByteClass, decimal, identifier_of, in_class, is_alphanumeric, is_digit, lemma_run_len_exact,
    lemma_run_len_in_class, numeric_spec, ParseError, parts_spec, run_len, version_spec,
    build_spec, qualifier_spec,
};
use crate::text::{decimal_text, digit_char};
use crate::version::{IdentifierView, VersionView, dotted_text, identifier_text, version_text};

verus! {

/// A version built from three numbers alone formats as
/// `MAJOR.MINOR.PATCH`, in decimal.
pub proof fn lemma_format_new(major: u64, minor: u64, patch: u64)
    ensures
        version_text(VersionView { major, minor, patch, prerelease: seq![], build: seq![] })
            == decimal_text(major as nat) + seq!['.'] + decimal_text(minor as nat) + seq!['.']
            + decimal_text(patch as nat),
{
    let v = VersionView { major, minor, patch, prerelease: seq![], build: seq![] };
    let head = decimal_text(major as nat) + seq!['.'] + decimal_text(minor as nat) + seq!['.']
        + decimal_text(patch as nat);
    assert(version_text(v) =~= head + seq![] + seq![]);
    assert(head + Seq::<char>::empty() + Seq::<char>::empty() =~= head);
}

/// Formatting depends on the value alone: equal versions give equal texts.
pub proof fn lemma_format_deterministic(a: VersionView, b: VersionView)
    requires
        a == b,
    ensures
        version_text(a) == version_text(b),
{
}

/// The bytes of ASCII characters.
pub open spec fn ascii_bytes(c: Seq<char>) -> Seq<u8> {
    c.map_values(|x: char| x as u8)
}

pub open spec fn is_digit_char(c: char) -> bool {
    0x30 <= c as u32 <= 0x39
}

pub open spec fn is_alphanumeric_char(c: char) -> bool {
    is_digit_char(c) || (0x41 <= c as u32 <= 0x5a) || (0x61 <= c as u32 <= 0x7a)
}

proof fn lemma_char_byte(c: char)
    requires
        c as u32 <= 0x7f,
    ensures
        c as u8 == c as u32,
{
}

/// All characters are ASCII.
pub open spec fn is_ascii_text(c: Seq<char>) -> bool {
    forall|i: int| 0 <= i < c.len() ==> (#[trigger] c[i]) as u32 <= 0x7f
}

proof fn lemma_encode_ascii(c: Seq<char>)
    requires
        is_ascii_text(c),
    ensures
        encode_utf8(c) == ascii_bytes(c),
    decreases c.len(),
{
    if c.len() > 0 {
        let s = c[0] as u32;
        assert((s & 0x7f) as u8 == s as u8) by (bit_vector)
            requires
                s <= 0x7f,
        ;
        lemma_char_byte(c[0]);
        let rest = c.drop_first();
        assert forall|i: int| 0 <= i < rest.len() implies (#[trigger] rest[i]) as u32 <= 0x7f by {
            assert(rest[i] == c[i + 1]);
        }
        lemma_encode_ascii(rest);
        assert(encode_utf8(c) =~= ascii_bytes(c));
    }
}

proof fn lemma_decimal_text(n: nat)
    ensures
        decimal_text(n).len() > 0,
        forall|i: int| 0 <= i < decimal_text(n).len() ==> is_digit_char(#[trigger] decimal_text(n)[i]),
        forall|i: int| 0 <= i < decimal_text(n).len() ==> is_digit(#[trigger] ascii_bytes(decimal_text(n))[i]),
        decimal(ascii_bytes(decimal_text(n))) == n,
    decreases n,
{
    let d = digit_char(n % 10);
    assert(d as u32 == 0x30 + n % 10);
    assert(d as u8 == 0x30 + n % 10);
    let t = decimal_text(n);
    let b = ascii_bytes(t);
    assert(t.last() == d);
    assert(b.last() == d as u8);
    if n < 10 {
        assert(b.drop_last() =~= Seq::<u8>::empty());
        assert(decimal(b.drop_last()) == 0);
        assert(n % 10 == n);
        assert(decimal(b) == n);
    } else {
        lemma_decimal_text(n / 10);
        let p = decimal_text(n / 10);
        assert(b.drop_last() =~= ascii_bytes(p));
        assert(decimal(b) == (n / 10) * 10 + n % 10);
        assert forall|i: int| 0 <= i < t.len() implies is_digit_char(#[trigger] t[i]) by {
            if i < t.len() - 1 {
                assert(t[i] == p[i]);
            }
        }
    }
    assert forall|i: int| 0 <= i < t.len() implies is_digit(#[trigger] b[i]) by {
        lemma_char_byte(t[i]);
    }
}

proof fn lemma_numeric_prefix(n: u64, t: Seq<u8>)
    requires
        t.len() == 0 || !is_digit(t[0]),
    ensures
        numeric_spec(ascii_bytes(decimal_text(n as nat)) + t) == Ok::<(u64, Seq<u8>), ParseError>(
            (n, t),
        ),
{
    let d = ascii_bytes(decimal_text(n as nat));
    lemma_decimal_text(n as nat);
    let s = d + t;
    assert forall|i: int| 0 <= i < d.len() implies in_class(#[trigger] s[i], ByteClass::Digit) by {
        assert(s[i] == d[i]);
    }
    if d.len() < s.len() {
        assert(s[d.len() as int] == t[0]);
    }
    lemma_run_len_exact(s, ByteClass::Digit, d.len() as int);
    assert(s.take(d.len() as int) =~= d);
    assert(s.skip(d.len() as int) =~= t);
}

/// An identifier that reads back as itself from its text: a number, or a
/// non-empty run of ASCII letters and digits that holds a letter.
pub open spec fn representable(id: IdentifierView) -> bool {
    match id {
        IdentifierView::Number(_) => true,
        IdentifierView::Text(t) => {
            &&& t.len() > 0
            &&& forall|i: int| 0 <= i < t.len() ==> is_alphanumeric_char(#[trigger] t[i])
            &&& exists|i: int| 0 <= i < t.len() && !is_digit_char(#[trigger] t[i])
        },
    }
}

proof fn lemma_identifier_bytes(id: IdentifierView)
    requires
        representable(id),
    ensures
        ascii_bytes(identifier_text(id)).len() > 0,
        forall|i: int|
            0 <= i < ascii_bytes(identifier_text(id)).len() ==> is_alphanumeric(
                #[trigger] ascii_bytes(identifier_text(id))[i],
            ),
        is_ascii_text(identifier_text(id)),
        identifier_of(ascii_bytes(identifier_text(id))) == id,
{
    let c = identifier_text(id);
    let b = ascii_bytes(c);
    match id {
        IdentifierView::Number(n) => {
            lemma_decimal_text(n as nat);
            lemma_run_len_exact(b, ByteClass::Digit, b.len() as int);
            assert forall|i: int| 0 <= i < c.len() implies (#[trigger] c[i]) as u32 <= 0x7f by {
                assert(is_digit_char(c[i]));
            }
        },
        IdentifierView::Text(t) => {
            assert forall|i: int| 0 <= i < b.len() implies is_alphanumeric(#[trigger] b[i]) by {
                assert(is_alphanumeric_char(t[i]));
                lemma_char_byte(t[i]);
            }
            assert forall|i: int| 0 <= i < c.len() implies (#[trigger] c[i]) as u32 <= 0x7f by {
                assert(is_alphanumeric_char(t[i]));
            }
            let k = choose|k: int| 0 <= k < t.len() && !is_digit_char(#[trigger] t[k]);
            assert(is_alphanumeric_char(t[k]));
            lemma_char_byte(t[k]);
            if run_len(b, ByteClass::Digit) == b.len() {
                lemma_run_len_in_class(b, ByteClass::Digit, k);
            }
            lemma_encode_ascii(t);
            encode_utf8_decode_utf8(t);
        },
    }
}

proof fn lemma_dotted_front(ids: Seq<IdentifierView>)
    requires
        ids.len() >= 2,
    ensures
        dotted_text(ids) == identifier_text(ids[0]) + seq!['.'] + dotted_text(ids.drop_first()),
    decreases ids.len(),
{
    if ids.len() == 2 {
        assert(ids.drop_last() =~= seq![ids[0]]);
        assert(ids.drop_first() =~= seq![ids[1]]);
        assert(dotted_text(seq![ids[0]]) == identifier_text(ids[0]));
        assert(dotted_text(seq![ids[1]]) == identifier_text(ids[1]));
    } else {
        lemma_dotted_front(ids.drop_last());
        assert(ids.drop_last().drop_first() =~= ids.drop_first().drop_last());
        assert(ids.drop_last()[0] == ids[0]);
        assert(ids.drop_first().last() == ids.last());
        assert(dotted_text(ids) =~= identifier_text(ids[0]) + seq!['.'] + dotted_text(
            ids.drop_first(),
        ));
    }
}

proof fn lemma_ascii_bytes_concat(a: Seq<char>, b: Seq<char>)
    ensures
        ascii_bytes(a + b) == ascii_bytes(a) + ascii_bytes(b),
{
    assert(ascii_bytes(a + b) =~= ascii_bytes(a) + ascii_bytes(b));
}

proof fn lemma_parts_bytes(ids: Seq<IdentifierView>, t: Seq<u8>)
    requires
        ids.len() > 0,
        forall|i: int| 0 <= i < ids.len() ==> representable(#[trigger] ids[i]),
        t.len() == 0 || (!is_alphanumeric(t[0]) && t[0] != 0x2e),
    ensures
        parts_spec(ascii_bytes(dotted_text(ids)) + t) == Ok::<
            (Seq<IdentifierView>, Seq<u8>),
            ParseError,
        >((ids, t)),
        is_ascii_text(dotted_text(ids)),
    decreases ids.len(),
{
    let id = ids[0];
    assert(representable(id));
    lemma_identifier_bytes(id);
    let b = ascii_bytes(identifier_text(id));
    let tail = if ids.len() == 1 {
        t
    } else {
        seq![0x2eu8] + ascii_bytes(dotted_text(ids.drop_first())) + t
    };
    let s = ascii_bytes(dotted_text(ids)) + t;
    if ids.len() == 1 {
        assert(dotted_text(ids) == identifier_text(id));
    } else {
        lemma_dotted_front(ids);
        let rest = ids.drop_first();
        lemma_ascii_bytes_concat(identifier_text(id) + seq!['.'], dotted_text(rest));
        lemma_ascii_bytes_concat(identifier_text(id), seq!['.']);
        assert(ascii_bytes(seq!['.']) =~= seq![0x2eu8]);
        assert forall|i: int| 0 <= i < rest.len() implies representable(#[trigger] rest[i]) by {
            assert(rest[i] == ids[i + 1]);
        }
        lemma_parts_bytes(rest, t);
    }
    assert(s =~= b + tail);
    assert forall|i: int| 0 <= i < b.len() implies in_class(
        #[trigger] s[i],
        ByteClass::Alphanumeric,
    ) by {
        assert(s[i] == b[i]);
    }
    if b.len() < s.len() {
        assert(s[b.len() as int] == tail[0]);
    }
    lemma_run_len_exact(s, ByteClass::Alphanumeric, b.len() as int);
    assert(s.take(b.len() as int) =~= b);
    assert(s.skip(b.len() as int) =~= tail);
    if ids.len() == 1 {
        assert(seq![id] =~= ids);
    } else {
        let rest = ids.drop_first();
        assert(tail.drop_first() =~= ascii_bytes(dotted_text(rest)) + t);
        assert(seq![id] + rest =~= ids);
        assert(is_ascii_text(dotted_text(ids))) by {
            let c = dotted_text(ids);
            let x = identifier_text(id);
            let y = dotted_text(rest);
            assert(c =~= x + seq!['.'] + y);
            assert forall|i: int| 0 <= i < c.len() implies (#[trigger] c[i]) as u32 <= 0x7f by {
                if i < x.len() {
                    assert(c[i] == x[i]);
                } else if i > x.len() {
                    assert(c[i] == y[i - x.len() - 1]);
                }
            }
        }
    }
}

proof fn lemma_ascii_concat(a: Seq<char>, b: Seq<char>)
    requires
        is_ascii_text(a),
        is_ascii_text(b),
    ensures
        is_ascii_text(a + b),
{
    assert forall|i: int| 0 <= i < (a + b).len() implies (#[trigger] (a + b)[i]) as u32 <= 0x7f by {
        if i < a.len() {
            assert((a + b)[i] == a[i]);
        } else {
            assert((a + b)[i] == b[i - a.len()]);
        }
    }
}

proof fn lemma_decimal_ascii(n: nat)
    ensures
        is_ascii_text(decimal_text(n)),
{
    lemma_decimal_text(n);
    let c = decimal_text(n);
    assert forall|i: int| 0 <= i < c.len() implies (#[trigger] c[i]) as u32 <= 0x7f by {
        assert(is_digit_char(c[i]));
    }
}

/// The qualifier text after the patch number: `-` and the prerelease
/// identifiers if any, then `+` and the build identifiers if any.
spec fn qualifier_text(v: VersionView) -> Seq<char> {
    (if v.prerelease.len() > 0 { seq!['-'] + dotted_text(v.prerelease) } else { seq![] })
        + (if v.build.len() > 0 { seq!['+'] + dotted_text(v.build) } else { seq![] })
}

proof fn lemma_qualifier(v: VersionView)
    requires
        forall|i: int| 0 <= i < v.prerelease.len() ==> representable(#[trigger] v.prerelease[i]),
        forall|i: int| 0 <= i < v.build.len() ==> representable(#[trigger] v.build[i]),
    ensures
        is_ascii_text(qualifier_text(v)),
        qualifier_text(v).len() > 0 ==> qualifier_spec(ascii_bytes(qualifier_text(v))) == Ok::<
            (Seq<IdentifierView>, Seq<IdentifierView>),
            ParseError,
        >((v.prerelease, v.build)),
        qualifier_text(v).len() > 0 ==> ascii_bytes(qualifier_text(v))[0] != 0x2e && !is_digit(
            ascii_bytes(qualifier_text(v))[0],
        ),
        qualifier_text(v).len() == 0 ==> v.prerelease == Seq::<IdentifierView>::empty()
            && v.build == Seq::<IdentifierView>::empty(),
{
    let pre_c: Seq<char> = if v.prerelease.len() > 0 {
        seq!['-'] + dotted_text(v.prerelease)
    } else {
        seq![]
    };
    let build_c: Seq<char> = if v.build.len() > 0 {
        seq!['+'] + dotted_text(v.build)
    } else {
        seq![]
    };
    let q = qualifier_text(v);
    assert(q == pre_c + build_c);
    assert(is_ascii_text(seq!['-']));
    assert(is_ascii_text(seq!['+']));
    let bb = ascii_bytes(build_c);
    if v.build.len() > 0 {
        let bd = ascii_bytes(dotted_text(v.build));
        lemma_parts_bytes(v.build, seq![]);
        assert(bd + Seq::<u8>::empty() =~= bd);
        lemma_ascii_bytes_concat(seq!['+'], dotted_text(v.build));
        assert(ascii_bytes(seq!['+']) =~= seq![0x2bu8]);
        assert(bb.drop_first() =~= bd);
        assert(build_spec(bd) == Ok::<Seq<IdentifierView>, ParseError>(v.build));
        lemma_ascii_concat(seq!['+'], dotted_text(v.build));
    } else {
        assert(v.build =~= Seq::<IdentifierView>::empty());
    }
    if v.prerelease.len() > 0 {
        let pd = ascii_bytes(dotted_text(v.prerelease));
        if bb.len() > 0 {
            assert(bb[0] == 0x2b);
        }
        lemma_parts_bytes(v.prerelease, bb);
        lemma_ascii_bytes_concat(seq!['-'], dotted_text(v.prerelease));
        assert(ascii_bytes(seq!['-']) =~= seq![0x2du8]);
        lemma_ascii_concat(seq!['-'], dotted_text(v.prerelease));
        lemma_ascii_bytes_concat(pre_c, build_c);
        let qb = ascii_bytes(q);
        assert(qb.drop_first() =~= pd + bb);
        assert(qb[0] == 0x2d);
        if bb.len() == 0 {
            assert(v.build =~= Seq::<IdentifierView>::empty());
        }
    } else {
        assert(v.prerelease =~= Seq::<IdentifierView>::empty());
        assert(q =~= build_c);
    }
    lemma_ascii_concat(pre_c, build_c);
}

proof fn lemma_version_bytes(v: VersionView)
    requires
        is_ascii_text(qualifier_text(v)),
    ensures
        encode_utf8(version_text(v)) == ascii_bytes(decimal_text(v.major as nat)) + (seq![0x2eu8]
            + ascii_bytes(decimal_text(v.minor as nat))) + (seq![0x2eu8] + ascii_bytes(
            decimal_text(v.patch as nat),
        )) + ascii_bytes(qualifier_text(v)),
{
    let c1 = decimal_text(v.major as nat);
    let c2 = decimal_text(v.minor as nat);
    let c3 = decimal_text(v.patch as nat);
    let q = qualifier_text(v);
    lemma_decimal_ascii(v.major as nat);
    lemma_decimal_ascii(v.minor as nat);
    lemma_decimal_ascii(v.patch as nat);
    let dot: Seq<char> = seq!['.'];
    assert(is_ascii_text(dot));
    let text = version_text(v);
    assert(text =~= c1 + (dot + c2) + (dot + c3) + q);
    lemma_ascii_concat(dot, c2);
    lemma_ascii_concat(dot, c3);
    lemma_ascii_concat(c1, dot + c2);
    lemma_ascii_concat(c1 + (dot + c2), dot + c3);
    lemma_ascii_concat(c1 + (dot + c2) + (dot + c3), q);
    lemma_encode_ascii(text);
    lemma_ascii_bytes_concat(dot, c2);
    lemma_ascii_bytes_concat(dot, c3);
    lemma_ascii_bytes_concat(c1, dot + c2);
    lemma_ascii_bytes_concat(c1 + (dot + c2), dot + c3);
    lemma_ascii_bytes_concat(c1 + (dot + c2) + (dot + c3), q);
    assert(ascii_bytes(dot) =~= seq![0x2eu8]);
}

/// Formatting a version whose identifiers all read back as themselves, and
/// reading the text again, gives the same version.
pub proof fn lemma_round_trip(v: VersionView)
    requires
        forall|i: int| 0 <= i < v.prerelease.len() ==> representable(#[trigger] v.prerelease[i]),
        forall|i: int| 0 <= i < v.build.len() ==> representable(#[trigger] v.build[i]),
    ensures
        version_spec(encode_utf8(version_text(v))) == Ok::<VersionView, ParseError>(v),
{
    lemma_qualifier(v);
    lemma_version_bytes(v);
    let r3 = ascii_bytes(qualifier_text(v));
    let r2 = seq![0x2eu8] + ascii_bytes(decimal_text(v.patch as nat)) + r3;
    let r1 = seq![0x2eu8] + ascii_bytes(decimal_text(v.minor as nat)) + r2;
    let s = ascii_bytes(decimal_text(v.major as nat)) + r1;
    assert(encode_utf8(version_text(v)) =~= s);
    if r3.len() > 0 {
        assert(r3[0] != 0x2e);
    }
    lemma_numeric_prefix(v.patch, r3);
    lemma_numeric_prefix(v.minor, r2);
    lemma_numeric_prefix(v.major, r1);
    assert(r1.drop_first() =~= ascii_bytes(decimal_text(v.minor as nat)) + r2);
    assert(r2.drop_first() =~= ascii_bytes(decimal_text(v.patch as nat)) + r3);
    lemma_decimal_text(v.major as nat);
    assert(s.len() > 0);
    assert(numeric_spec(s) == Ok::<(u64, Seq<u8>), ParseError>((v.major, r1)));
    assert(numeric_spec(r1.drop_first()) == Ok::<(u64, Seq<u8>), ParseError>((v.minor, r2)));
    assert(numeric_spec(r2.drop_first()) == Ok::<(u64, Seq<u8>), ParseError>((v.patch, r3)));
}

} // verus!
