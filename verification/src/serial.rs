//! Serial input: the bytes read from the UART in one interrupt, gathered
//! into characters as soon as they form valid UTF-8.
use vstd::prelude::*;
use vstd::string::{StrSliceExecFns, StringSliceAdditionalSpecFns};
use vstd::utf8::{decode_utf8, encode_utf8, encode_utf8_decode_utf8, valid_utf8};

verus! {

/// `core::str::from_utf8`: the string of the bytes when they are valid
/// UTF-8, else `None` (the error is dropped).
#[verifier::external_body]
fn str_from_utf8(v: &[u8]) -> (r: Option<&str>)
    ensures
        r is Some <==> valid_utf8(v@),
        r matches Some(s) ==> s.spec_bytes() == v@,
{
    core::str::from_utf8(v).ok()
}

/// The characters that a run of received bytes yields, after the pending
/// bytes `pending`: each byte joins the pending ones, and as soon as they
/// are valid UTF-8 their first character comes out and they are dropped.
pub open spec fn assemble(bytes: Seq<u8>, pending: Seq<u8>) -> Seq<char>
    decreases bytes.len(),
{
    if bytes.len() == 0 {
        Seq::empty()
    } else {
        let b = pending.push(bytes[0]);
        if valid_utf8(b) {
            seq![decode_utf8(b)[0]] + assemble(bytes.drop_first(), Seq::empty())
        } else {
            assemble(bytes.drop_first(), b)
        }
    }
}

/// Adds one received byte to the pending bytes; gives the character they
/// form, if they now are valid UTF-8, and drops them then.
pub fn receive_byte(pending: &mut Vec<u8>, byte: u8) -> (r: Option<char>)
    ensures
        valid_utf8(old(pending)@.push(byte)) ==> r == Some(decode_utf8(old(pending)@.push(byte))[0])
            && final(pending)@ == Seq::<u8>::empty(),
        !valid_utf8(old(pending)@.push(byte)) ==> r is None && final(pending)@ == old(pending)@.push(
            byte,
        ),
{
    pending.push(byte);
    let r = match str_from_utf8(pending.as_slice()) {
        Some(s) => {
            proof {
                encode_utf8_decode_utf8(s@);
                assert(encode_utf8(s@).len() > 0 ==> s@.len() > 0);
                if s@.len() == 0 {
                    assert(encode_utf8(s@) =~= Seq::<u8>::empty());
                }
            }
            Some(s.get_char(0))
        },
        None => None,
    };
    if r.is_some() {
        pending.clear();
    }
    r
}

/// The characters that the bytes received in one interrupt yield, starting
/// with nothing pending (see `assemble`).
pub fn receive(bytes: &Vec<u8>) -> (chars: Vec<char>)
    ensures
        chars@ == assemble(bytes@, Seq::empty()),
{
    let mut pending: Vec<u8> = Vec::new();
    let mut chars: Vec<char> = Vec::new();
    let mut i: usize = 0;
    assert(bytes@.skip(0) =~= bytes@);
    assert(chars@ + assemble(bytes@, Seq::empty()) =~= assemble(bytes@, Seq::empty()));
    while i < bytes.len()
        invariant
            i <= bytes@.len(),
            chars@ + assemble(bytes@.skip(i as int), pending@) == assemble(bytes@, Seq::empty()),
        decreases bytes@.len() - i,
    {
        let ghost before = chars@;
        let ghost p = pending@;
        assert(bytes@.skip(i as int)[0] == bytes@[i as int]);
        assert(bytes@.skip(i as int).drop_first() =~= bytes@.skip(i + 1));
        match receive_byte(&mut pending, bytes[i]) {
            Some(c) => {
                chars.push(c);
                assert(before + (seq![c] + assemble(bytes@.skip(i + 1), Seq::empty())) =~= before.push(
                    c,
                ) + assemble(bytes@.skip(i + 1), Seq::empty()));
            },
            None => {},
        }
        i = i + 1;
    }
    assert(bytes@.skip(bytes@.len() as int) =~= Seq::<u8>::empty());
    assert(chars@ + Seq::<char>::empty() =~= chars@);
    chars
}

} // verus!
