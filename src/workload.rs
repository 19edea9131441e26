//! The workload unit: allocate a buffer, fill it with random bytes, and
//! reduce it to its largest byte.
use vstd::prelude::*;

use rand::rngs::ThreadRng;

verus! {

/// Number of bytes that one workload invocation allocates and fills.
pub const BUFFER_SIZE: usize = 1_000_000;

#[verifier::external_type_specification]
#[verifier::external_body]
pub struct ExThreadRng(ThreadRng);

/// Relies on rand::thread_rng: hands out a handle to the thread-local generator.
#[verifier::external_body]
fn thread_rng() -> ThreadRng {
    rand::thread_rng()
}

/// Relies on rand::Rng::gen for u8: a uniformly drawn byte, any value possible.
#[verifier::external_body]
fn random_byte(rng: &mut ThreadRng) -> u8 {
    rand::Rng::gen::<u8>(rng)
}

/// Relies on std::hint::black_box: returns its argument unchanged, and hints
/// to the optimizer that the value is used, so the workload is kept.
#[verifier::external_body]
fn keep(b: u8) -> (r: u8)
    ensures
        r == b,
{
    std::hint::black_box(b)
}

/// The largest byte of a nonempty sequence (0 for the empty one).
pub open spec fn seq_max(s: Seq<u8>) -> u8
    decreases s.len(),
{
    if s.len() == 0 {
        0
    } else {
        let m = seq_max(s.drop_last());
        if s.last() > m { s.last() } else { m }
    }
}

/// `seq_max` is an element of the sequence and bounds every element.
pub proof fn lemma_seq_max(s: Seq<u8>)
    requires
        s.len() > 0,
    ensures
        forall|i: int| 0 <= i < s.len() ==> s[i] <= seq_max(s),
        exists|i: int| 0 <= i < s.len() && s[i] == seq_max(s),
    decreases s.len(),
{
    if s.len() == 1 {
        assert(s.drop_last().len() == 0);
        assert(seq_max(s.drop_last()) == 0);
        assert(s[0] == seq_max(s));
    } else {
        let t = s.drop_last();
        lemma_seq_max(t);
        assert forall|i: int| 0 <= i < s.len() implies s[i] <= seq_max(s) by {
            if i < t.len() {
                assert(s[i] == t[i]);
            }
        }
        if s.last() > seq_max(t) {
            assert(s[s.len() - 1] == seq_max(s));
        } else {
            let j = choose|j: int| 0 <= j < t.len() && t[j] == seq_max(t);
            assert(s[j] == seq_max(s));
        }
    }
}

/// The largest byte of a nonempty buffer.
pub fn max_byte(data: &Vec<u8>) -> (r: u8)
    requires
        data@.len() > 0,
    ensures
        r == seq_max(data@),
        forall|i: int| 0 <= i < data@.len() ==> data@[i] <= r,
        exists|i: int| 0 <= i < data@.len() && data@[i] == r,
{
    let mut m: u8 = data[0];
    let mut i: usize = 1;
    proof {
        let first = data@.subrange(0, 1);
        assert(first.drop_last().len() == 0);
        assert(seq_max(first.drop_last()) == 0);
        assert(first.last() == data@[0]);
    }
    while i < data.len()
        invariant
            1 <= i <= data@.len(),
            m == seq_max(data@.subrange(0, i as int)),
        decreases data@.len() - i,
    {
        proof {
            assert(data@.subrange(0, i + 1).drop_last() =~= data@.subrange(0, i as int));
        }
        if data[i] > m {
            m = data[i];
        }
        i = i + 1;
    }
    proof {
        assert(data@.subrange(0, data@.len() as int) =~= data@);
        lemma_seq_max(data@);
    }
    m
}

/// A handle to the thread's random generator that remembers, as ghost
/// state, every byte drawn through it, oldest first.
pub struct RandomSource {
    rng: ThreadRng,
    drawn: Ghost<Seq<u8>>,
}

impl RandomSource {
    /// The bytes drawn through this handle so far, oldest first.
    pub closed spec fn drawn(&self) -> Seq<u8> {
        self.drawn@
    }

    /// A handle to the current thread's generator with nothing drawn yet.
    pub fn new() -> (src: RandomSource)
        ensures
            src.drawn() == Seq::<u8>::empty(),
    {
        RandomSource { rng: thread_rng(), drawn: Ghost(Seq::empty()) }
    }

    /// Draws one uniformly random byte and records it.
    pub fn next_byte(&mut self) -> (b: u8)
        ensures
            final(self).drawn() == old(self).drawn().push(b),
    {
        let b = random_byte(&mut self.rng);
        self.drawn = Ghost(self.drawn@.push(b));
        b
    }
}

/// Overwrites every byte of `data`, in order, with a freshly drawn byte: after
/// the call `data` holds exactly the bytes drawn by it.
pub fn fill_random(src: &mut RandomSource, data: &mut Vec<u8>)
    ensures
        final(src).drawn().len() == old(src).drawn().len() + old(data)@.len(),
        final(src).drawn().subrange(0, old(src).drawn().len() as int) == old(src).drawn(),
        final(data)@ == final(src).drawn().skip(old(src).drawn().len() as int),
{
    let n = data.len();
    let ghost start = src.drawn().len() as int;
    let mut i: usize = 0;
    while i < n
        invariant
            n == data@.len(),
            n == old(data)@.len(),
            i <= n,
            start == old(src).drawn().len(),
            src.drawn().len() == start + i,
            src.drawn().subrange(0, start) == old(src).drawn(),
            forall|j: int| 0 <= j < i ==> data@[j] == src.drawn()[start + j],
        decreases n - i,
    {
        let ghost before = src.drawn();
        let b = src.next_byte();
        proof {
            assert(src.drawn().subrange(0, start) =~= before.subrange(0, start));
        }
        data.set(i, b);
        i = i + 1;
    }
    proof {
        assert(data@ =~= src.drawn().skip(start));
    }
}

/// The workload unit: allocates `BUFFER_SIZE` bytes, fills them with bytes
/// drawn from `src` and returns the largest. Both the blocking and the
/// suspendable form run this computation.
pub fn allocate_sync(src: &mut RandomSource) -> (r: u8)
    ensures
        final(src).drawn().len() == old(src).drawn().len() + BUFFER_SIZE,
        final(src).drawn().subrange(0, old(src).drawn().len() as int) == old(src).drawn(),
        r == seq_max(final(src).drawn().skip(old(src).drawn().len() as int)),
{
    let mut data: Vec<u8> = vec![0u8; BUFFER_SIZE];
    fill_random(src, &mut data);
    keep(max_byte(&data))
}

} // verus!
