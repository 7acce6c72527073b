//! Command history: the last sixteen distinct commands, walked with the
//! arrow keys.

use vstd::prelude::*;

verus! {

pub const MAX_HISTORY: usize = 16;

/// The entries after `cmd` is recorded: empty commands and repeats of the
/// newest entry are not recorded, and the oldest entry goes when there are
/// more than sixteen.
pub open spec fn push_spec(items: Seq<Seq<char>>, cmd: Seq<char>) -> Seq<Seq<char>> {
    if cmd.len() == 0 || (items.len() > 0 && items.last() == cmd) {
        items
    } else if items.len() + 1 > MAX_HISTORY {
        items.push(cmd).drop_first()
    } else {
        items.push(cmd)
    }
}

/// Moving back: from the fresh line to the newest entry, then one step
/// older each time, staying at the oldest. Nothing when empty.
pub open spec fn prev_spec(items: Seq<Seq<char>>, index: int) -> (int, Option<Seq<char>>) {
    if items.len() == 0 {
        (index, None)
    } else {
        let i = if index < 0 { items.len() - 1 } else if index > 0 { index - 1 } else { index };
        (i, Some(items[i]))
    }
}

/// Moving forward: one step newer, past the newest back to the fresh line.
pub open spec fn next_spec(items: Seq<Seq<char>>, index: int) -> (int, Option<Seq<char>>) {
    if items.len() == 0 || index < 0 {
        (index, None)
    } else if index >= items.len() - 1 {
        (-1, None)
    } else {
        (index + 1, Some(items[index + 1]))
    }
}

/// The history and the position being shown (-1: the fresh line).
pub struct History {
    items: Vec<String>,
    index: isize,
}

impl History {
    #[verifier::type_invariant]
    closed spec fn inv(&self) -> bool {
        &&& -1 <= self.index < self.items@.len()
        &&& self.items@.len() <= MAX_HISTORY
    }

    /// The entries, oldest first.
    pub closed spec fn entries(&self) -> Seq<Seq<char>> {
        self.items@.map_values(|s: String| s@)
    }

    /// The position shown: -1 for the fresh line.
    pub closed spec fn position(&self) -> int {
        self.index as int
    }

    pub fn new() -> (r: Self)
        ensures
            r.entries() == Seq::<Seq<char>>::empty(),
            r.position() == -1,
    {
        let r = History { items: Vec::new(), index: -1 };
        assert(r.entries() =~= Seq::<Seq<char>>::empty());
        r
    }

    /// Records a command and returns to the fresh line.
    pub fn push(&mut self, cmd: &str)
        ensures
            final(self).entries() == push_spec(old(self).entries(), cmd@),
            final(self).position() == -1,
    {
        proof {
            use_type_invariant(&*self);
        }
        self.index = -1;
        if cmd.unicode_len() == 0 {
            return;
        }
        let n = self.items.len();
        if n > 0 && str_eq(self.items[n - 1].as_str(), cmd) {
            assert(self.entries().last() == cmd@);
            return;
        }
        let ghost e = self.entries();
        let mut items: Vec<String> = Vec::new();
        std::mem::swap(&mut items, &mut self.items);
        items.push(cmd.to_owned());
        assert(items@.map_values(|s: String| s@) =~= e.push(cmd@));
        if items.len() > MAX_HISTORY {
            items.remove(0);
            assert(items@.map_values(|s: String| s@) =~= e.push(cmd@).drop_first());
        }
        self.items = items;
    }

    /// The previous (older) entry, if any.
    pub fn prev(&mut self) -> (r: Option<String>)
        ensures
            final(self).entries() == old(self).entries(),
            final(self).position() == prev_spec(old(self).entries(), old(self).position()).0,
            match prev_spec(old(self).entries(), old(self).position()).1 {
                Some(c) => r matches Some(s) && s@ == c,
                None => r is None,
            },
    {
        proof {
            use_type_invariant(&*self);
        }
        let len = self.items.len();
        if len == 0 {
            return None;
        }
        if self.index < 0 {
            self.index = (len - 1) as isize;
        } else if self.index > 0 {
            self.index = self.index - 1;
        }
        let i = self.index as usize;
        Some(self.items[i].clone())
    }

    /// The next (newer) entry, or none when back at the fresh line.
    pub fn next(&mut self) -> (r: Option<String>)
        ensures
            final(self).entries() == old(self).entries(),
            final(self).position() == next_spec(old(self).entries(), old(self).position()).0,
            match next_spec(old(self).entries(), old(self).position()).1 {
                Some(c) => r matches Some(s) && s@ == c,
                None => r is None,
            },
    {
        proof {
            use_type_invariant(&*self);
        }
        let len = self.items.len();
        if len == 0 || self.index < 0 {
            return None;
        }
        if self.index as usize >= len - 1 {
            self.index = -1;
            return None;
        }
        self.index = self.index + 1;
        let i = self.index as usize;
        Some(self.items[i].clone())
    }
}

/// Whether two strings hold the same characters.
pub fn str_eq(a: &str, b: &str) -> (r: bool)
    ensures
        r == (a@ == b@),
{
    let n = a.unicode_len();
    if n != b.unicode_len() {
        return false;
    }
    let mut i: usize = 0;
    while i < n
        invariant
            n == a@.len() == b@.len(),
            i <= n,
            forall|j: int| 0 <= j < i ==> a@[j] == b@[j],
        decreases n - i,
    {
        if a.get_char(i) != b.get_char(i) {
            return false;
        }
        i = i + 1;
    }
    assert(a@ =~= b@);
    true
}

/// A command just recorded is the first one the up arrow brings back.
pub proof fn push_then_prev(items: Seq<Seq<char>>, index: int, cmd: Seq<char>)
    requires
        items.len() <= MAX_HISTORY,
        cmd.len() > 0,
    ensures
        prev_spec(push_spec(items, cmd), -1).1 == Some(cmd),
{
}

/// Going back one step and forward again returns to the fresh line with
/// nothing shown when the newest entry was shown; otherwise forward from
/// the entry reached going back gives the newer one again.
pub proof fn prev_then_next(items: Seq<Seq<char>>, index: int)
    requires
        items.len() >= 2,
        -1 <= index < items.len(),
        index != 0,
    ensures
        index == -1 ==> next_spec(items, prev_spec(items, index).0) == (-1int, None::<Seq<char>>),
        index > 0 ==> next_spec(items, prev_spec(items, index).0) == (index, Some(items[index])),
{
}

/// The history never holds more than sixteen entries, nor an empty one, nor
/// the same command twice in a row.
pub proof fn push_keeps_shape(items: Seq<Seq<char>>, cmd: Seq<char>)
    requires
        items.len() <= MAX_HISTORY,
        forall|i: int| 0 <= i < items.len() ==> (#[trigger] items[i]).len() > 0,
        forall|i: int| 0 <= i < items.len() - 1 ==> #[trigger] items[i] != items[i + 1],
    ensures
        push_spec(items, cmd).len() <= MAX_HISTORY,
        forall|i: int| 0 <= i < push_spec(items, cmd).len() ==> (#[trigger] push_spec(items, cmd)[i]).len() > 0,
        forall|i: int| 0 <= i < push_spec(items, cmd).len() - 1
            ==> #[trigger] push_spec(items, cmd)[i] != push_spec(items, cmd)[i + 1],
{
    let p = push_spec(items, cmd);
    if !(cmd.len() == 0 || (items.len() > 0 && items.last() == cmd)) {
        let q = items.push(cmd);
        assert forall|k: int| 0 <= k < q.len() - 1 implies #[trigger] q[k] != q[k + 1] by {
            if k + 1 == items.len() {
                assert(q[k] == items.last());
            } else {
                assert(q[k] == items[k] && q[k + 1] == items[k + 1]);
            }
        }
        assert forall|k: int| 0 <= k < q.len() implies (#[trigger] q[k]).len() > 0 by {
            if k < items.len() {
                assert(q[k] == items[k]);
            }
        }
        if items.len() + 1 > MAX_HISTORY {
            assert forall|i: int| 0 <= i < p.len() - 1 implies #[trigger] p[i] != p[i + 1] by {
                assert(p[i] == q[i + 1] && p[i + 1] == q[i + 2]);
            }
            assert forall|i: int| 0 <= i < p.len() implies (#[trigger] p[i]).len() > 0 by {
                assert(p[i] == q[i + 1]);
            }
        }
    }
}

} // verus!
