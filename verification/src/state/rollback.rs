//! Values that remember since which height they hold, so that taking
//! blocks back can bring the earlier value up again.

use vstd::prelude::*;

verus! {

/// A value and the height since which it holds.
#[derive(Clone, Copy, Debug, PartialEq, Eq)]
pub struct HeightStamped<T> {
    pub value: T,
    pub height: u32,
}

/// The heights never go down along the list.
pub open spec fn rising<T>(entries: Seq<HeightStamped<T>>) -> bool {
    forall|i: int, j: int|
        0 <= i <= j < entries.len() ==> (#[trigger] entries[i]).height <= (
        #[trigger] entries[j]).height
}

/// The number of entries that hold at `height`: the place of the first
/// entry, from place `from` on, whose height is above `height`; the length
/// of the list where there is none.
pub open spec fn held_at<T>(entries: Seq<HeightStamped<T>>, height: u32, from: int) -> int
    decreases entries.len() - from,
{
    if from < 0 || from >= entries.len() {
        entries.len() as int
    } else if entries[from].height > height {
        from
    } else {
        held_at(entries, height, from + 1)
    }
}

/// Where the heights rise and an entry divides the entries that hold at a
/// height from those that do not, its place is the number of those that
/// hold.
pub proof fn lemma_held_at<T>(entries: Seq<HeightStamped<T>>, height: u32, cut: int, from: int)
    requires
        0 <= from <= cut <= entries.len(),
        forall|i: int| 0 <= i < cut ==> (#[trigger] entries[i]).height <= height,
        cut < entries.len() ==> entries[cut].height > height,
    ensures
        held_at(entries, height, from) == cut,
    decreases cut - from,
{
    if from < cut {
        lemma_held_at(entries, height, cut, from + 1);
    }
}

/// A value with its history: each value that it had, with the height since
/// which it held, the oldest first. There is always a value.
pub struct RollBack<T> {
    first: HeightStamped<T>,
    later: Vec<HeightStamped<T>>,
}

impl<T> View for RollBack<T> {
    type V = Seq<HeightStamped<T>>;

    closed spec fn view(&self) -> Seq<HeightStamped<T>> {
        seq![self.first] + self.later@
    }
}

impl<T> RollBack<T> {
    #[verifier::type_invariant]
    spec fn sound(&self) -> bool {
        rising(seq![self.first] + self.later@)
    }

    /// A value that holds since `height` and has no earlier history.
    pub fn new(value: T, height: u32) -> (history: Self)
        ensures
            history@ == seq![HeightStamped { value, height }],
    {
        let history = RollBack { first: HeightStamped { value, height }, later: Vec::new() };
        assert(history@ =~= seq![HeightStamped { value, height }]);
        history
    }

    /// The value that holds now, and since when.
    pub fn latest(&self) -> (latest: &HeightStamped<T>)
        ensures
            self@.len() > 0,
            rising(self@),
            *latest == self@.last(),
    {
        proof {
            use_type_invariant(self);
        }
        if self.later.len() == 0 {
            &self.first
        } else {
            &self.later[self.later.len() - 1]
        }
    }

    /// The value that held at `height`: the latest that was set at that
    /// height or below. There is none where the first value was set above
    /// that height.
    pub fn at_height(&self, height: u32) -> (held: Option<&HeightStamped<T>>)
        ensures
            rising(self@),
            held is Some == (held_at(self@, height, 0) > 0),
            held matches Some(entry) ==> *entry == self@[held_at(self@, height, 0) - 1],
    {
        proof {
            use_type_invariant(self);
        }
        let ghost entries = self@;
        if self.first.height > height {
            return None;
        }
        let mut low: usize = 0;
        let mut high: usize = self.later.len();
        while low < high
            invariant
                low <= high <= self.later@.len(),
                entries == seq![self.first] + self.later@,
                rising(entries),
                self.first.height <= height,
                forall|i: int| 0 <= i < low ==> (#[trigger] self.later@[i]).height <= height,
                forall|i: int|
                    high <= i < self.later@.len() ==> (#[trigger] self.later@[i]).height > height,
            decreases high - low,
        {
            let mid: usize = low + (high - low) / 2;
            if self.later[mid].height <= height {
                assert forall|i: int| 0 <= i < mid + 1 implies (#[trigger] self.later@[i]).height
                    <= height by {
                    assert(entries[i + 1].height <= entries[mid + 1].height);
                }
                low = mid + 1;
            } else {
                assert forall|i: int| mid <= i < self.later@.len() implies (
                #[trigger] self.later@[i]).height > height by {
                    assert(entries[mid + 1].height <= entries[i + 1].height);
                }
                high = mid;
            }
        }
        proof {
            assert forall|i: int| 0 <= i < low + 1 implies (#[trigger] entries[i]).height
                <= height by {
                if i > 0 {
                    assert(self.later@[i - 1].height <= height);
                }
            }
            if low + 1 < entries.len() {
                assert(self.later@[low as int].height > height);
            }
            lemma_held_at(entries, height, low + 1, 0);
        }
        if low == 0 {
            Some(&self.first)
        } else {
            Some(&self.later[low - 1])
        }
    }

    /// Sets the value as of `height`. A height below the height of the
    /// latest value is refused: history is not rewritten.
    pub fn push(&mut self, value: T, height: u32) -> (r: Result<(), T>)
        ensures
            match r {
                Ok(()) => old(self)@.last().height <= height && final(self)@ == old(self)@.push(
                    HeightStamped { value, height },
                ),
                Err(refused) => old(self)@.last().height > height && refused == value
                    && final(self)@ == old(self)@,
            },
    {
        proof {
            use_type_invariant(&*self);
        }
        let ghost entries = self@;
        let latest = if self.later.len() == 0 {
            self.first.height
        } else {
            self.later[self.later.len() - 1].height
        };
        if latest > height {
            return Err(value);
        }
        let mut later: Vec<HeightStamped<T>> = Vec::new();
        core::mem::swap(&mut self.later, &mut later);
        later.push(HeightStamped { value, height });
        proof {
            let grown = seq![self.first] + later@;
            assert(grown =~= entries.push(HeightStamped { value, height }));
            assert forall|i: int, j: int| 0 <= i <= j < grown.len() implies (
            #[trigger] grown[i]).height <= (#[trigger] grown[j]).height by {
                if j < entries.len() {
                    assert(entries[i].height <= entries[j].height);
                } else if i < j {
                    assert(entries[i].height <= entries[entries.len() - 1].height);
                }
            }
        }
        core::mem::swap(&mut self.later, &mut later);
        Ok(())
    }

    /// Walks one entry back: the latest value goes, the one before it holds
    /// again. The only value there is stays.
    pub fn pop(&mut self) -> (r: Option<HeightStamped<T>>)
        ensures
            match r {
                Some(gone) => old(self)@.len() > 1 && gone == old(self)@.last() && final(self)@
                    == old(self)@.drop_last(),
                None => old(self)@.len() == 1 && final(self)@ == old(self)@,
            },
    {
        proof {
            use_type_invariant(&*self);
        }
        let ghost entries = self@;
        let mut later: Vec<HeightStamped<T>> = Vec::new();
        core::mem::swap(&mut self.later, &mut later);
        let gone = later.pop();
        proof {
            let left = seq![self.first] + later@;
            if gone is Some {
                assert(left =~= entries.drop_last());
            } else {
                assert(left =~= entries);
            }
            assert forall|i: int, j: int| 0 <= i <= j < left.len() implies (
            #[trigger] left[i]).height <= (#[trigger] left[j]).height by {
                assert(entries[i].height <= entries[j].height);
            }
        }
        core::mem::swap(&mut self.later, &mut later);
        gone
    }
}

} // verus!
