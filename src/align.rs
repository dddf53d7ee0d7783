use vstd::prelude::*;
use crate::location::{Additions, Location, sat_add};

verus! {

/// What an alignment kind has settled so far: the widest item of the open group, the line
/// of the last finished item, the items of the open group, and the paddings of closed groups.
pub struct GroupState {
    pub max_width: usize,
    pub line: usize,
    pub rest: Seq<(Location, usize)>,
    pub out: Map<Location, usize>,
}

/// The state before any item.
pub open spec fn initial_state() -> GroupState {
    GroupState { max_width: 0, line: 0, rest: Seq::empty(), out: Map::empty() }
}

/// `out` with each pending item given the distance from its width to `max_width`;
/// a later item at the same location replaces an earlier one.
pub open spec fn flush(out: Map<Location, usize>, rest: Seq<(Location, usize)>, max_width: usize) -> Map<
    Location,
    usize,
>
    decreases rest.len(),
{
    if rest.len() == 0 {
        out
    } else {
        flush(out, rest.drop_last(), max_width).insert(
            rest.last().0,
            (max_width - rest.last().1) as usize,
        )
    }
}

/// Closes the open group.
pub open spec fn close(s: GroupState) -> GroupState {
    GroupState {
        max_width: 0,
        line: s.line,
        rest: Seq::empty(),
        out: flush(s.out, s.rest, s.max_width),
    }
}

/// Whether an item on line `line` starts a new group after `s`: more than one line apart.
pub open spec fn starts_group(s: GroupState, line: usize) -> bool {
    line > s.line + 1
}

/// Adds a finished item (its location and width), closing the open group first when the
/// item is more than one line below the previous one.
pub open spec fn place(s: GroupState, cell: (Location, usize)) -> GroupState {
    let s1 = if starts_group(s, cell.0.line) {
        close(s)
    } else {
        s
    };
    GroupState {
        max_width: if cell.1 > s1.max_width {
            cell.1
        } else {
            s1.max_width
        },
        line: cell.0.line,
        rest: s1.rest.push(cell),
        out: s1.out,
    }
}

/// The state after placing `cells` in order, from `s`.
pub open spec fn place_from(s: GroupState, cells: Seq<(Location, usize)>) -> GroupState
    decreases cells.len(),
{
    if cells.len() == 0 {
        s
    } else {
        place(place_from(s, cells.drop_last()), cells.last())
    }
}

/// The paddings of one alignment kind whose finished items are `cells`, in order.
pub open spec fn paddings(cells: Seq<(Location, usize)>) -> Map<Location, usize> {
    close(place_from(initial_state(), cells)).out
}

/// Every padding in `m` is zero.
pub open spec fn all_zero(m: Map<Location, usize>) -> bool {
    forall|l: Location| #[trigger] m.contains_key(l) ==> m[l] == 0
}

/// Every item of `cells` has width `w`.
pub open spec fn uniform(cells: Seq<(Location, usize)>, w: usize) -> bool {
    forall|i: int| 0 <= i < cells.len() ==> #[trigger] cells[i].1 == w
}

proof fn lemma_flush_uniform(out: Map<Location, usize>, rest: Seq<(Location, usize)>, w: usize)
    requires
        all_zero(out),
        uniform(rest, w),
    ensures
        all_zero(flush(out, rest, w)),
    decreases rest.len(),
{
    if rest.len() > 0 {
        assert(uniform(rest.drop_last(), w)) by {
            assert forall|i: int| 0 <= i < rest.drop_last().len() implies #[trigger] rest.drop_last()[i].1 == w by {
                assert(rest.drop_last()[i] == rest[i]);
            }
        }
        lemma_flush_uniform(out, rest.drop_last(), w);
        assert(rest.last().1 == w);
    }
}

proof fn lemma_place_uniform(cells: Seq<(Location, usize)>, w: usize)
    requires
        uniform(cells, w),
    ensures
        all_zero(place_from(initial_state(), cells).out),
        uniform(place_from(initial_state(), cells).rest, w),
        place_from(initial_state(), cells).rest.len() > 0 ==> place_from(initial_state(), cells).max_width == w,
        place_from(initial_state(), cells).rest.len() == 0 ==> place_from(initial_state(), cells).max_width == 0,
    decreases cells.len(),
{
    if cells.len() > 0 {
        let init = cells.drop_last();
        assert(uniform(init, w)) by {
            assert forall|i: int| 0 <= i < init.len() implies #[trigger] init[i].1 == w by {
                assert(init[i] == cells[i]);
            }
        }
        lemma_place_uniform(init, w);
        let s = place_from(initial_state(), init);
        assert(cells.last().1 == w);
        if starts_group(s, cells.last().0.line) {
            if s.rest.len() > 0 {
                lemma_flush_uniform(s.out, s.rest, w);
            } else {
                assert(flush(s.out, s.rest, s.max_width) == s.out);
            }
        }
        let s2 = place_from(initial_state(), cells);
        assert forall|i: int| 0 <= i < s2.rest.len() implies #[trigger] s2.rest[i].1 == w by {
            if i < s2.rest.len() - 1 {
            }
        }
    } else {
        assert(all_zero(Map::<Location, usize>::empty()));
    }
}

/// When every item of a kind has the same width, the kind pads nothing: each padding it
/// writes is zero, whatever the other kinds hold.
pub proof fn lemma_uniform_widths_pad_nothing(cells: Seq<(Location, usize)>, w: usize)
    requires
        uniform(cells, w),
    ensures
        all_zero(paddings(cells)),
{
    lemma_place_uniform(cells, w);
    let s = place_from(initial_state(), cells);
    if s.rest.len() > 0 {
        lemma_flush_uniform(s.out, s.rest, w);
    } else {
        assert(flush(s.out, s.rest, s.max_width) == s.out);
    }
}

/// The column-alignment cursor of one alignment kind.
pub struct Align {
    max_width: usize,
    width: usize,
    line: usize,
    rest: Vec<(Location, usize)>,
    additions: Additions,
    last_token: Option<Location>,
}

impl Align {
    /// The settled part of the cursor.
    pub closed spec fn state(&self) -> GroupState {
        GroupState {
            max_width: self.max_width,
            line: self.line,
            rest: self.rest@,
            out: self.additions@,
        }
    }

    /// The width of the item being measured.
    pub closed spec fn item_width(&self) -> usize {
        self.width
    }

    /// The location of the last token of the item being measured.
    pub closed spec fn item_last(&self) -> Option<Location> {
        self.last_token
    }

    pub closed spec fn wf(&self) -> bool {
        &&& self.additions.wf()
        &&& forall|i: int| 0 <= i < self.rest@.len() ==> #[trigger] self.rest@[i].1 <= self.max_width
    }

    /// A well-formed cursor never buffers an item wider than its open group.
    pub proof fn lemma_buffered_within_group(&self)
        requires
            self.wf(),
        ensures
            forall|i: int|
                0 <= i < self.state().rest.len() ==> #[trigger] self.state().rest[i].1 <= self.state().max_width,
    {
    }

    pub fn new() -> (r: Align)
        ensures
            r.wf(),
            r.state() == initial_state(),
            r.item_width() == 0,
            r.item_last() == None::<Location>,
    {
        Align {
            max_width: 0,
            width: 0,
            line: 0,
            rest: Vec::new(),
            additions: Additions::new(),
            last_token: None,
        }
    }

    /// The paddings written so far.
    pub fn additions(&self) -> (r: &Additions)
        requires
            self.wf(),
        ensures
            r.wf(),
            r@ == self.state().out,
    {
        &self.additions
    }

    /// Closes the open group: each of its items gets the group's width minus its own.
    pub fn finish_group(&mut self)
        requires
            old(self).wf(),
        ensures
            final(self).wf(),
            final(self).state() == close(old(self).state()),
            final(self).item_width() == old(self).item_width(),
            final(self).item_last() == old(self).item_last(),
    {
        let ghost out0 = self.additions@;
        let mut i: usize = 0;
        while i < self.rest.len()
            invariant
                self.wf(),
                i <= self.rest@.len(),
                self.rest@ == old(self).rest@,
                self.max_width == old(self).max_width,
                self.width == old(self).width,
                self.line == old(self).line,
                self.last_token == old(self).last_token,
                self.additions@ == flush(out0, self.rest@.subrange(0, i as int), self.max_width),
            decreases self.rest@.len() - i,
        {
            let (loc, w) = self.rest[i];
            self.additions.set(loc, self.max_width - w);
            proof {
                assert(self.rest@.subrange(0, i + 1).drop_last() =~= self.rest@.subrange(0, i as int));
            }
            i = i + 1;
        }
        proof {
            assert(self.rest@.subrange(0, i as int) =~= self.rest@);
        }
        self.rest.clear();
        self.max_width = 0;
        assert(self.state() =~= close(old(self).state()));
    }

    /// Closes the item being measured, if it has a token: a gap of more than one line
    /// closes the open group first; the item then joins the open group.
    pub fn finish_item(&mut self)
        requires
            old(self).wf(),
        ensures
            final(self).wf(),
            match old(self).item_last() {
                Some(l) => final(self).state() == place(
                    old(self).state(),
                    (l, old(self).item_width()),
                ) && final(self).item_width() == 0 && final(self).item_last() == None::<Location>,
                None => *final(self) == *old(self),
            },
    {
        let last_token = self.last_token.take();
        if let Some(loc) = last_token {
            if loc.line > self.line && loc.line - self.line > 1 {
                self.finish_group();
            }
            if self.width > self.max_width {
                self.max_width = self.width;
            }
            self.line = loc.line;
            self.rest.push((loc, self.width));
            self.width = 0;
        }
    }

    /// Starts measuring a new item.
    pub fn start_item(&mut self)
        requires
            old(self).wf(),
        ensures
            final(self).wf(),
            final(self).state() == old(self).state(),
            final(self).item_width() == 0,
            final(self).item_last() == old(self).item_last(),
    {
        self.width = 0;
    }

    /// Adds a token's length to the item being measured.
    pub fn token(&mut self, x: &Location)
        requires
            old(self).wf(),
        ensures
            final(self).wf(),
            final(self).state() == old(self).state(),
            final(self).item_width() == sat_add(old(self).item_width(), x.length),
            final(self).item_last() == Some(*x),
    {
        self.width = self.width.saturating_add(x.length);
        self.last_token = Some(*x);
    }

    /// Anchors the item being measured at a token without adding to its width.
    pub fn dummy_token(&mut self, x: &Location)
        requires
            old(self).wf(),
        ensures
            final(self).wf(),
            final(self).state() == old(self).state(),
            final(self).item_width() == old(self).item_width(),
            final(self).item_last() == Some(*x),
    {
        self.last_token = Some(*x);
    }

    /// Adds `x` columns to the item being measured.
    pub fn space(&mut self, x: usize)
        requires
            old(self).wf(),
        ensures
            final(self).wf(),
            final(self).state() == old(self).state(),
            final(self).item_width() == sat_add(old(self).item_width(), x),
            final(self).item_last() == old(self).item_last(),
    {
        self.width = self.width.saturating_add(x);
    }
}

} // verus!
