use vstd::prelude::*;
use vstd::string::StringSliceAdditionalSpecFns;
use vstd::utf8::{decode_utf8, valid_utf8};

use crate::parse::ParseError;

verus! {

/// A read position over an in-memory byte sequence.
pub struct Cursor {
    bytes: Vec<u8>,
    pos: usize,
}

impl View for Cursor {
    /// The bytes that have not been consumed yet.
    type V = Seq<u8>;

    closed spec fn view(&self) -> Seq<u8> {
        self.bytes@.subrange(self.pos as int, self.bytes@.len() as int)
    }
}

impl Cursor {
    /// The cursor is well formed: its position lies within its bytes.
    pub closed spec fn wf(&self) -> bool {
        self.pos <= self.bytes@.len()
    }

    /// A cursor over a copy of the bytes of `text`, positioned at the first one.
    pub fn new(text: &str) -> (r: Cursor)
        ensures
            r.wf(),
            r@ == text.spec_bytes(),
    {
        let src = text.as_bytes();
        let mut bytes: Vec<u8> = Vec::new();
        let mut i: usize = 0;
        while i < src.len()
            invariant
                i <= src@.len(),
                bytes@ == src@.take(i as int),
            decreases src@.len() - i,
        {
            bytes.push(src[i]);
            i = i + 1;
            assert(bytes@ =~= src@.take(i as int));
        }
        let r = Cursor { bytes, pos: 0 };
        assert(r@ =~= src@);
        r
    }
}

/// True iff no bytes are left.
pub fn is_eof(s: &Cursor) -> (r: bool)
    requires
        s.wf(),
    ensures
        r == (s@.len() == 0),
{
    s.pos == s.bytes.len()
}

/// Consumes and returns the next byte, or returns `None` at the end.
pub fn take1(s: &mut Cursor) -> (r: Option<u8>)
    requires
        old(s).wf(),
    ensures
        final(s).wf(),
        old(s)@.len() == 0 ==> r is None && final(s)@ == old(s)@,
        old(s)@.len() > 0 ==> r == Some(old(s)@[0]) && final(s)@ == old(s)@.drop_first(),
{
    if s.pos == s.bytes.len() {
        None
    } else {
        let b = s.bytes[s.pos];
        s.pos = s.pos + 1;
        assert(s@ =~= old(s)@.drop_first());
        Some(b)
    }
}

/// Returns the next byte without consuming it, or `None` at the end.
pub fn peek1(s: &Cursor) -> (r: Option<u8>)
    requires
        s.wf(),
    ensures
        s@.len() == 0 ==> r is None,
        s@.len() > 0 ==> r == Some(s@[0]),
{
    if s.pos == s.bytes.len() {
        None
    } else {
        Some(s.bytes[s.pos])
    }
}

/// Consumes the longest run of bytes, from the front, on which `predicate`
/// returns true, and returns that run.
pub fn take_bytes_while<P: Fn(u8) -> bool>(s: &mut Cursor, predicate: P) -> (r: Vec<u8>)
    requires
        old(s).wf(),
        forall|b: u8| predicate.requires((b,)),
    ensures
        final(s).wf(),
        r@.len() <= old(s)@.len(),
        r@ == old(s)@.take(r@.len() as int),
        final(s)@ == old(s)@.skip(r@.len() as int),
        forall|i: int| 0 <= i < r@.len() ==> predicate.ensures((#[trigger] r@[i],), true),
        r@.len() < old(s)@.len() ==> predicate.ensures((old(s)@[r@.len() as int],), false),
{
    let ghost start = s@;
    let ghost start_pos = s.pos;
    let mut run: Vec<u8> = Vec::new();
    while s.pos < s.bytes.len()
        invariant
            s.wf(),
            forall|b: u8| predicate.requires((b,)),
            s.bytes@ == old(s).bytes@,
            start == old(s)@,
            start_pos == old(s).pos,
            s.pos == start_pos + run@.len(),
            run@.len() <= start.len(),
            run@ == start.take(run@.len() as int),
            s@ == start.skip(run@.len() as int),
            forall|i: int| 0 <= i < run@.len() ==> predicate.ensures((#[trigger] run@[i],), true),
        decreases s.bytes@.len() - s.pos,
    {
        let b = s.bytes[s.pos];
        assert(b == start[run@.len() as int]);
        if predicate(b) {
            run.push(b);
            s.pos = s.pos + 1;
            assert(run@ =~= start.take(run@.len() as int));
            assert(s@ =~= start.skip(run@.len() as int));
        } else {
            return run;
        }
    }
    run
}

/// Relies on `String::from_utf8`: it succeeds exactly when the bytes are
/// valid UTF-8, and then holds the characters that they encode.
#[verifier::external_body]
fn utf8_to_string(bytes: Vec<u8>) -> (r: Option<String>)
    ensures
        r is Some <==> valid_utf8(bytes@),
        r is Some ==> r->0@ == decode_utf8(bytes@),
{
    String::from_utf8(bytes).ok()
}

/// Consumes the longest run of bytes, from the front, on which `predicate`
/// returns true, and decodes it as UTF-8 text. Fails with `Io` if the run is
/// not valid UTF-8; the run is consumed either way.
pub fn take_string_while<P: Fn(u8) -> bool>(s: &mut Cursor, predicate: P) -> (r: Result<
    String,
    ParseError,
>)
    requires
        old(s).wf(),
        forall|b: u8| predicate.requires((b,)),
    ensures
        final(s).wf(),
        exists|k: int|
            #![trigger old(s)@.take(k)]
            {
                &&& 0 <= k <= old(s)@.len()
                &&& final(s)@ == old(s)@.skip(k)
                &&& forall|i: int| 0 <= i < k ==> predicate.ensures((#[trigger] old(s)@[i],), true)
                &&& k < old(s)@.len() ==> predicate.ensures((old(s)@[k],), false)
                &&& valid_utf8(old(s)@.take(k)) ==> (r matches Ok(t) && t@ == decode_utf8(
                    old(s)@.take(k),
                ))
                &&& !valid_utf8(old(s)@.take(k)) ==> r == Err::<String, ParseError>(ParseError::Io)
            },
{
    let run = take_bytes_while(s, predicate);
    let ghost k = run@.len() as int;
    let ghost run_v = run@;
    assert(old(s)@.take(k) == run_v);
    assert forall|i: int| 0 <= i < k implies predicate.ensures((#[trigger] old(s)@[i],), true) by {
        assert(run_v[i] == old(s)@[i]);
    }
    match utf8_to_string(run) {
        Some(t) => Ok(t),
        None => Err(ParseError::Io),
    }
}

} // verus!
