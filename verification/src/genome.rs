//! The genetic sequence of a plant: raw 16-bit values behind a cursor that
//! reads in a circle and never runs out.

use vstd::prelude::*;
use crate::chance::{happens, random_value};
use crate::config::GENOME_SIZE;
use crate::parallel::mutate_all;
use crate::ratio::Ratio;

verus! {

/// The mathematical content of a genome: its values and the place of the
/// next read.
pub struct GenomeView {
    /// The raw values.
    pub data: Seq<u16>,
    /// The index of the value that the next read returns.
    pub cursor: nat,
}

impl GenomeView {
    /// There is something to read, and the cursor points at it.
    pub open spec fn wf(self) -> bool {
        self.cursor < self.data.len()
    }

    /// The value under the cursor: what the next read returns.
    pub open spec fn current(self) -> u16 {
        self.data[self.cursor as int]
    }

    /// The genome after one read: the cursor has moved on by one, and
    /// from the last value back to the first.
    pub open spec fn next(self) -> GenomeView {
        GenomeView {
            data: self.data,
            cursor: if self.cursor + 1 == self.data.len() {
                0
            } else {
                self.cursor + 1
            },
        }
    }

    /// The value that the read after `offset` further reads returns.
    pub open spec fn peek(self, offset: nat) -> u16 {
        self.data[((self.cursor + offset) % self.data.len()) as int]
    }

    /// The values that the next `amount` reads return, in order.
    pub open spec fn upcoming(self, amount: nat) -> Seq<u16> {
        Seq::new(amount, |i: int| self.peek(i as nat))
    }

    /// The genome after `amount` reads.
    pub open spec fn advance(self, amount: nat) -> GenomeView {
        GenomeView { data: self.data, cursor: (self.cursor + amount) % self.data.len() }
    }

    /// The genome with its cursor back at the start.
    pub open spec fn rewound(self) -> GenomeView {
        GenomeView { data: self.data, cursor: 0 }
    }
}

/// The fraction `value / 65535` that a raw value denotes.
pub open spec fn normalized(value: u16) -> Ratio {
    Ratio { num: value as u32, den: 65535 }
}

/// The boolean a raw value denotes: whether its fraction of the largest
/// value is at least a half, which is so from 32768 on.
pub open spec fn as_bool(value: u16) -> bool {
    value >= 32768
}

/// A raw value denotes `true` exactly when its normalized fraction is at
/// least one half.
pub proof fn lemma_as_bool_is_half_or_more(value: u16)
    ensures
        as_bool(value) == (Ratio { num: 1, den: 2 }).le_spec(normalized(value)),
{
    assert(1 * 65535 <= value * 2 <==> value >= 32768);
}

/// The value an offspring holds where the parent holds `val`: the parent's
/// own unless the position is redrawn.
pub open spec fn inherits(val: u16, redrawn: bool, child: u16) -> bool {
    !redrawn ==> child == val
}

/// A sequence of raw genetic values with a read cursor.
#[derive(Debug)]
pub struct Genome {
    /// The raw values.
    pub data: Vec<u16>,
    /// The index of the value that the next read returns.
    pub value_counter: usize,
}

impl View for Genome {
    type V = GenomeView;

    open spec fn view(&self) -> GenomeView {
        GenomeView { data: self.data@, cursor: self.value_counter as nat }
    }
}

impl Genome {
    /// A genome can be read when it is not empty and its cursor is inside.
    pub open spec fn wf(&self) -> bool {
        self@.wf()
    }

    /// Runtime form of [`Genome::wf`].
    pub fn is_valid(&self) -> (valid: bool)
        ensures
            valid == self.wf(),
    {
        self.value_counter < self.data.len()
    }

    /// Draws a genome of [`GENOME_SIZE`] independent random values, with
    /// the cursor at the start.
    pub fn new() -> (genome: Genome)
        ensures
            genome.wf(),
            genome@.data.len() == GENOME_SIZE,
            genome@.cursor == 0,
    {
        let mut data: Vec<u16> = Vec::with_capacity(GENOME_SIZE);
        let mut i: usize = 0;
        while i < GENOME_SIZE
            invariant
                i <= GENOME_SIZE,
                data@.len() == i,
            decreases GENOME_SIZE - i,
        {
            data.push(random_value());
            i += 1;
        }
        Genome { data, value_counter: 0 }
    }

    /// Reads `amount` values in a circle, however many laps that takes.
    pub fn parse_values(&mut self, amount: usize) -> (values: Vec<u16>)
        requires
            old(self).wf(),
        ensures
            final(self).wf(),
            final(self)@ == old(self)@.advance(amount as nat),
            values@ == old(self)@.upcoming(amount as nat),
    {
        let mut values: Vec<u16> = Vec::with_capacity(amount);
        let mut i: usize = 0;
        proof {
            vstd::arithmetic::div_mod::lemma_small_mod(self@.cursor, self@.data.len());
        }
        while i < amount
            invariant
                i <= amount,
                old(self).wf(),
                self.wf(),
                self@ == old(self)@.advance(i as nat),
                values@ == old(self)@.upcoming(i as nat),
            decreases amount - i,
        {
            let value: u16 = self.parse_value();
            values.push(value);
            proof {
                lemma_advance_step(old(self)@, i as nat);
                assert(values@ =~= old(self)@.upcoming((i + 1) as nat));
            }
            i += 1;
        }
        values
    }

    /// Reads one value and moves the cursor on by one, back to the start
    /// after the last value.
    pub fn parse_value(&mut self) -> (value: u16)
        requires
            old(self).wf(),
        ensures
            final(self).wf(),
            value == old(self)@.current(),
            final(self)@ == old(self)@.next(),
            value == old(self)@.peek(0),
            final(self)@ == old(self)@.advance(1),
    {
        let len: usize = self.data.len();
        let value: u16 = self.data[self.value_counter];
        let next: usize = if self.value_counter + 1 == len {
            0
        } else {
            self.value_counter + 1
        };
        proof {
            let len = self.data@.len() as int;
            let cursor = self.value_counter as int;
            vstd::arithmetic::div_mod::lemma_small_mod(cursor as nat, len as nat);
            if cursor + 1 == len {
                vstd::arithmetic::div_mod::lemma_mod_self_0(len);
            } else {
                vstd::arithmetic::div_mod::lemma_small_mod((cursor + 1) as nat, len as nat);
            }
        }
        self.value_counter = next;
        value
    }

    /// Reads one value as the fraction `value / 65535`.
    pub fn parse_value_normalized(&mut self) -> (fraction: Ratio)
        requires
            old(self).wf(),
        ensures
            final(self).wf(),
            fraction == normalized(old(self)@.current()),
            final(self)@ == old(self)@.next(),
            fraction == normalized(old(self)@.peek(0)),
            final(self)@ == old(self)@.advance(1),
            fraction.wf(),
    {
        let value: u16 = self.parse_value();
        Ratio { num: value as u32, den: 65535 }
    }

    /// Reads one value as a fair boolean: true when its fraction is at
    /// least a half.
    pub fn parse_bool(&mut self) -> (flag: bool)
        requires
            old(self).wf(),
        ensures
            final(self).wf(),
            flag == as_bool(old(self)@.current()),
            final(self)@ == old(self)@.next(),
            flag == as_bool(old(self)@.peek(0)),
            final(self)@ == old(self)@.advance(1),
    {
        let fraction: Ratio = self.parse_value_normalized();
        proof {
            lemma_as_bool_is_half_or_more(old(self)@.current());
        }
        (Ratio { num: 1, den: 2 }).le(fraction)
    }

    /// Derives the genome of an offspring: every value is independently
    /// redrawn with probability `mutation_rate` and copied otherwise. The
    /// new cursor is at the start.
    pub fn create_offspring(&self, mutation_rate: Ratio) -> (child: Genome)
        requires
            self.wf(),
            mutation_rate.wf(),
        ensures
            child.wf(),
            child@.data.len() == self@.data.len(),
            child@.cursor == 0,
            mutation_rate.is_zero() ==> child@.data == self@.data,
    {
        let data: Vec<u16> = mutate_all(&self.data, mutation_rate);
        Genome { data, value_counter: 0 }
    }

    /// Decides the fate of one value in an offspring.
    pub fn mutate(val: u16, mutation_rate: Ratio) -> (child: u16)
        requires
            mutation_rate.wf(),
        ensures
            mutation_rate.is_zero() ==> child == val,
    {
        let redrawn: bool = happens(mutation_rate);
        Genome::mutated(val, redrawn)
    }

    /// The value an offspring holds in place of `val`: a fresh draw when the
    /// position is redrawn, the parent's value bit for bit when it is not.
    pub fn mutated(val: u16, redrawn: bool) -> (child: u16)
        ensures
            inherits(val, redrawn, child),
    {
        // nothing is drawn where nothing is redrawn
        let fresh: u16 = if redrawn {
            random_value()
        } else {
            val
        };
        Genome::inherit(val, redrawn, fresh)
    }

    /// Settles one position of an offspring once the draws are made: the
    /// drawn value where the position is redrawn, the parent's value bit for
    /// bit where it is not.
    pub fn inherit(val: u16, redrawn: bool, fresh: u16) -> (child: u16)
        ensures
            child == inherited(val, redrawn, fresh),
    {
        if redrawn {
            fresh
        } else {
            val
        }
    }
}

/// The value an offspring holds where the parent holds `val`, given the
/// decision whether the position is redrawn and the value drawn for it: the
/// drawn value if it is redrawn, the parent's own if it is not.
pub open spec fn inherited(val: u16, redrawn: bool, fresh: u16) -> u16 {
    if redrawn {
        fresh
    } else {
        val
    }
}

/// Reading one more value after `amount` reads is the same as reading
/// `amount + 1` values.
pub proof fn lemma_advance_step(genome: GenomeView, amount: nat)
    requires
        genome.wf(),
    ensures
        genome.advance(amount).wf(),
        genome.advance(amount).advance(1) == genome.advance(amount + 1),
        genome.advance(amount).peek(0) == genome.peek(amount),
{
    let len = genome.data.len() as int;
    let sum = (genome.cursor + amount) as int;
    vstd::arithmetic::div_mod::lemma_mod_bound(sum, len);
    vstd::arithmetic::div_mod::lemma_add_mod_noop(sum, 1, len);
    vstd::arithmetic::div_mod::lemma_mod_twice(sum, len);
    if len == 1 {
        assert(1int % len == 0);
    } else {
        vstd::arithmetic::div_mod::lemma_small_mod(1, len as nat);
    }
    vstd::arithmetic::div_mod::lemma_add_mod_noop(sum % len, 1, len);
    vstd::arithmetic::div_mod::lemma_small_mod((sum % len) as nat, len as nat);
}

/// Reads go round in a circle: a full lap brings the cursor back to where it
/// was, and the values read after a full lap are the values read at first.
/// In particular, of `len + k` values read from a rewound genome, the last
/// `k` repeat the first `k`.
pub proof fn lemma_circular_read(genome: GenomeView, k: nat)
    requires
        genome.wf(),
    ensures
        genome.advance(genome.data.len()) == genome,
        genome.upcoming(genome.data.len() + k).subrange(
            genome.data.len() as int,
            (genome.data.len() + k) as int,
        ) == genome.upcoming(k),
        genome.upcoming(genome.data.len() + k).subrange(0, k as int) == genome.upcoming(k),
{
    let len = genome.data.len();
    assert((genome.cursor + len) % len == genome.cursor) by {
        vstd::arithmetic::div_mod::lemma_mod_add_multiples_vanish(
            genome.cursor as int,
            len as int,
        );
        vstd::arithmetic::div_mod::lemma_small_mod(genome.cursor, len);
    }
    let long = genome.upcoming(len + k);
    assert forall|i: int| 0 <= i < k implies long[len + i] == genome.upcoming(k)[i] by {
        vstd::arithmetic::div_mod::lemma_mod_add_multiples_vanish(
            genome.cursor + i,
            len as int,
        );
        assert(genome.cursor + (len + i) == len + (genome.cursor + i));
    }
    assert(long.subrange(len as int, (len + k) as int) =~= genome.upcoming(k));
    assert(long.subrange(0, k as int) =~= genome.upcoming(k));
}

} // verus!
