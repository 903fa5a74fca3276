//! CSAFE standard frames: a start flag, the stuffed command bytes, the stuffed
//! checksum and a stop flag. The checksum is the exclusive or of every command
//! byte, flags excluded.
use vstd::prelude::*;

use crate::concept2command::Concept2Command;
use crate::consts::{CSAFE_START_FLAG, CSAFE_STOP_FLAG};
use crate::stuffing::{lemma_stuffed_all_append, lemma_stuffed_all_push, push_stuffed, stuffed, stuffed_all};

verus! {

/// Exclusive or of all bytes of `s`; zero for no bytes.
pub open spec fn xor_fold(s: Seq<u8>) -> u8
    decreases s.len(),
{
    if s.len() == 0 {
        0
    } else {
        xor_fold(s.drop_last()) ^ s.last()
    }
}

/// Exclusive or of all bytes of `bytes`.
pub fn checksum_iter(bytes: &[u8]) -> (r: u8)
    ensures
        r == xor_fold(bytes@),
{
    let mut acc: u8 = 0;
    let mut i: usize = 0;
    while i < bytes.len()
        invariant
            i <= bytes@.len(),
            acc == xor_fold(bytes@.take(i as int)),
        decreases bytes@.len() - i,
    {
        assert(bytes@.take(i + 1).drop_last() =~= bytes@.take(i as int));
        acc = acc ^ bytes[i];
        i = i + 1;
    }
    assert(bytes@.take(i as int) =~= bytes@);
    acc
}

/// The exclusive or of a concatenation is the exclusive or of the two parts.
pub proof fn lemma_xor_fold_append(a: Seq<u8>, b: Seq<u8>)
    ensures
        xor_fold(a + b) == xor_fold(a) ^ xor_fold(b),
    decreases b.len(),
{
    if b.len() == 0 {
        assert(a + b =~= a);
        let x = xor_fold(a);
        assert(x ^ 0u8 == x) by (bit_vector);
    } else {
        assert((a + b).drop_last() =~= a + b.drop_last());
        lemma_xor_fold_append(a, b.drop_last());
        let x = xor_fold(a);
        let y = xor_fold(b.drop_last());
        let z = b.last();
        assert((x ^ y) ^ z == x ^ (y ^ z)) by (bit_vector);
    }
}

/// The command bytes of a frame before stuffing, commands in order.
pub open spec fn frame_payload(cmds: Seq<Concept2Command>) -> Seq<u8>
    decreases cmds.len(),
{
    if cmds.len() == 0 {
        Seq::empty()
    } else {
        frame_payload(cmds.drop_last()) + cmds.last().spec_bytes()
    }
}

/// A frame around `payload` whose checksum byte is `check`.
pub open spec fn frame_with_checksum(payload: Seq<u8>, check: u8) -> Seq<u8> {
    seq![CSAFE_START_FLAG] + stuffed_all(payload) + stuffed(check) + seq![CSAFE_STOP_FLAG]
}

/// The frame that carries `payload`, with its checksum.
pub open spec fn framed(payload: Seq<u8>) -> Seq<u8> {
    frame_with_checksum(payload, xor_fold(payload))
}

pub open spec fn all_wf(cmds: Seq<Concept2Command>) -> bool {
    forall|i: int| 0 <= i < cmds.len() ==> #[trigger] cmds[i].wf()
}

/// Appends every byte of `bytes`, stuffed, to `out`.
fn push_stuffed_all(out: &mut Vec<u8>, bytes: &[u8])
    ensures
        final(out)@ == old(out)@ + stuffed_all(bytes@),
{
    let mut i: usize = 0;
    assert(bytes@.take(0) =~= Seq::<u8>::empty());
    assert(out@ =~= out@ + stuffed_all(Seq::<u8>::empty()));
    while i < bytes.len()
        invariant
            i <= bytes@.len(),
            out@ == old(out)@ + stuffed_all(bytes@.take(i as int)),
        decreases bytes@.len() - i,
    {
        push_stuffed(out, bytes[i]);
        proof {
            lemma_stuffed_all_push(bytes@.take(i as int), bytes@[i as int]);
            assert(bytes@.take(i + 1) =~= bytes@.take(i as int).push(bytes@[i as int]));
        }
        i = i + 1;
    }
    assert(bytes@.take(i as int) =~= bytes@);
}

/// Checksum computes a single byte with exclusive or over the bytes of all
/// commands in the slice.
pub fn checksum(commands: &[Concept2Command]) -> (r: u8)
    requires
        all_wf(commands@),
    ensures
        r == xor_fold(frame_payload(commands@)),
{
    let mut acc: u8 = 0;
    let mut i: usize = 0;
    assert(commands@.take(0) =~= Seq::<Concept2Command>::empty());
    while i < commands.len()
        invariant
            i <= commands@.len(),
            all_wf(commands@),
            acc == xor_fold(frame_payload(commands@.take(i as int))),
        decreases commands@.len() - i,
    {
        let bytes = commands[i].iter();
        let x = checksum_iter(bytes.as_slice());
        proof {
            let prev = commands@.take(i as int);
            assert(commands@.take(i + 1).drop_last() =~= prev);
            lemma_xor_fold_append(frame_payload(prev), bytes@);
        }
        acc = acc ^ x;
        i = i + 1;
    }
    assert(commands@.take(i as int) =~= commands@);
    acc
}

/// A standard frame: the commands that it carries, in order.
pub struct CSAFEFrame {
    commands: Vec<Concept2Command>,
}

impl View for CSAFEFrame {
    type V = Seq<Concept2Command>;

    closed spec fn view(&self) -> Seq<Concept2Command> {
        self.commands@
    }
}

impl CSAFEFrame {
    /// Every proprietary group of the frame fits its one-byte count.
    #[verifier::type_invariant]
    spec fn inv(&self) -> bool {
        all_wf(self.commands@)
    }

    pub fn new(cmds: Vec<Concept2Command>) -> (r: CSAFEFrame)
        requires
            all_wf(cmds@),
        ensures
            r@ == cmds@,
    {
        CSAFEFrame { commands: cmds }
    }

    /// Resolves the frame to bytes: the start flag, the stuffed bytes of each
    /// command, the stuffed checksum and the stop flag.
    pub fn to_vec(&self) -> (r: Vec<u8>)
        ensures
            r@ == framed(frame_payload(self@)),
    {
        proof {
            use_type_invariant(self);
        }
        let cmds = &self.commands;
        let mut out: Vec<u8> = vec![CSAFE_START_FLAG];
        let mut i: usize = 0;
        assert(cmds@.take(0) =~= Seq::<Concept2Command>::empty());
        assert(out@ =~= seq![CSAFE_START_FLAG] + stuffed_all(Seq::<u8>::empty()));
        while i < cmds.len()
            invariant
                i <= cmds@.len(),
                all_wf(cmds@),
                out@ == seq![CSAFE_START_FLAG] + stuffed_all(frame_payload(cmds@.take(i as int))),
            decreases cmds@.len() - i,
        {
            let bytes = cmds[i].iter();
            push_stuffed_all(&mut out, bytes.as_slice());
            proof {
                let prev = cmds@.take(i as int);
                assert(cmds@.take(i + 1).drop_last() =~= prev);
                lemma_stuffed_all_append(frame_payload(prev), bytes@);
            }
            i = i + 1;
        }
        assert(cmds@.take(i as int) =~= cmds@);
        let check = checksum(cmds.as_slice());
        push_stuffed(&mut out, check);
        out.push(CSAFE_STOP_FLAG);
        out
    }
}

} // verus!
