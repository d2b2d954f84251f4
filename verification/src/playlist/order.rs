//! The order in which a playlist is played.

use super::item::{Entry, PlaylistItem, entries};
use crate::utils::unix_time;
use vstd::prelude::*;

verus! {

// ---- Drawing ---------------------------------------------------------------

/// One step of the xorshift generator.
pub open spec fn xorshift(x: u64) -> u64 {
    let a = x ^ (x << 13);
    let b = a ^ (a >> 7);
    b ^ (b << 17)
}

/// The generator, once seeded, never comes to zero, its unseeded state.
pub proof fn law_xorshift_stays_seeded(x: u64)
    requires
        x != 0,
    ensures
        xorshift(x) != 0,
{
    let a = x ^ (x << 13);
    let b = a ^ (a >> 7);
    let c = b ^ (b << 17);
    assert(a != 0) by (bit_vector)
        requires
            x != 0,
            a == x ^ (x << 13),
    ;
    assert(b != 0) by (bit_vector)
        requires
            a != 0,
            b == a ^ (a >> 7),
    ;
    assert(c != 0) by (bit_vector)
        requires
            b != 0,
            c == b ^ (b << 17),
    ;
}

/// The seed that a time gives: its nanoseconds, made odd.
pub open spec fn seed_at(time: Option<(u64, u32)>) -> u64 {
    match time {
        Some(t) => ((t.0 * 1_000_000_000 + t.1) % 0x1_0000_0000_0000_0000) as u64 | 1,
        None => 0x9e37_79b9_7f4a_7c15u64 | 1,
    }
}

/// A seed is never zero.
pub proof fn law_seed_is_not_zero(time: Option<(u64, u32)>)
    ensures
        seed_at(time) != 0,
{
    let x: u64 = match time {
        Some(t) => ((t.0 * 1_000_000_000 + t.1) % 0x1_0000_0000_0000_0000) as u64,
        None => 0x9e37_79b9_7f4a_7c15u64,
    };
    assert(x | 1 != 0) by (bit_vector);
}

/// The seed that a time gives.
pub fn seed_for(time: Option<(u64, u32)>) -> (seed: u64)
    ensures
        seed == seed_at(time),
        seed != 0,
{
    proof {
        law_seed_is_not_zero(time);
    }
    match time {
        Some(t) => {
            let nanos: u128 = t.0 as u128 * 1_000_000_000 + t.1 as u128;
            let low: u64 = (nanos % 0x1_0000_0000_0000_0000) as u64;
            low | 1
        },
        None => 0x9e37_79b9_7f4a_7c15u64 | 1,
    }
}

/// A seed from the current time.
fn xorshift_seed() -> (seed: u64)
    ensures
        seed != 0,
        exists|time: Option<(u64, u32)>| #[trigger] seed_at(time) == seed,
{
    seed_for(unix_time())
}

// ---- Model -----------------------------------------------------------------

/// The state of a playlist.
#[verifier::ext_equal]
pub struct Order {
    pub items: Seq<Entry>,
    /// The entry that is played.
    pub current: Option<usize>,
    /// Whether the entries are played in random order.
    pub shuffle: bool,
    /// In random order, the entries played in this cycle; the last one is the
    /// current one.
    pub history: Seq<usize>,
    /// The state of the generator; zero before it is seeded.
    pub rng: u64,
}

/// Whether the cursor and the history speak of entries that are there, and the
/// history ends with the current entry, and holds none twice in a row.
pub open spec fn is_valid(o: Order) -> bool {
    &&& o.current matches Some(c) ==> c < o.items.len()
    &&& forall|i: int| 0 <= i < o.history.len() ==> (#[trigger] o.history[i]) < o.items.len()
    &&& o.history.len() > 0 <==> o.shuffle && o.current is Some
    &&& o.history.len() > 0 ==> o.current == Some(o.history.last())
    &&& forall|i: int, j: int|
        0 <= i && j == i + 1 && j < o.history.len() ==> #[trigger] o.history[i]
            != #[trigger] o.history[j]
}

/// The history of a cycle that begins at the current entry.
pub open spec fn fresh_history(shuffle: bool, current: Option<usize>) -> Seq<usize> {
    match current {
        Some(c) if shuffle => seq![c],
        _ => seq![],
    }
}

/// The state after an entry is chosen; unchanged where there is no such entry.
pub open spec fn selected(o: Order, index: int) -> Order {
    if 0 <= index < o.items.len() {
        Order {
            current: Some(index as usize),
            history: if o.shuffle && !(o.history.len() > 0 && o.history.last() == index) {
                o.history.push(index as usize)
            } else {
                o.history
            },
            ..o
        }
    } else {
        o
    }
}

/// The entries below `n` that are not in `history`, in their order.
pub open spec fn unplayed(n: nat, history: Seq<usize>) -> Seq<usize>
    decreases n,
{
    if n == 0 {
        seq![]
    } else if history.contains((n - 1) as usize) {
        unplayed((n - 1) as nat, history)
    } else {
        unplayed((n - 1) as nat, history).push((n - 1) as usize)
    }
}

/// The history from which the next entry is drawn: a cycle in which everything
/// was played begins anew at the current entry.
pub open spec fn cycle_history(o: Order) -> Seq<usize> {
    if unplayed(o.items.len(), o.history).len() == 0 {
        fresh_history(true, o.current)
    } else {
        o.history
    }
}

/// The generator's next state; `seed` is used where it is not seeded.
pub open spec fn next_rng(rng: u64, seed: u64) -> u64 {
    xorshift(
        if rng == 0 {
            seed
        } else {
            rng
        },
    )
}

/// The entry that is drawn with the random number `rng`.
pub open spec fn drawn(o: Order, rng: u64) -> int {
    let candidates = unplayed(o.items.len(), cycle_history(o));
    candidates[rng as int % candidates.len() as int] as int
}

/// Where going forward leads: to an entry, or past the end.
pub open spec fn forward(o: Order, seed: u64) -> Option<int> {
    if o.items.len() == 0 {
        None
    } else if !o.shuffle {
        match o.current {
            Some(c) => if c + 1 < o.items.len() {
                Some(c + 1)
            } else {
                None
            },
            None => Some(0),
        }
    } else if o.items.len() == 1 {
        Some(0)
    } else {
        Some(drawn(o, next_rng(o.rng, seed)))
    }
}

/// The state after going forward.
pub open spec fn advanced(o: Order, seed: u64) -> Order {
    match forward(o, seed) {
        None => o,
        Some(i) => if o.shuffle && o.items.len() > 1 {
            selected(Order { history: cycle_history(o), rng: next_rng(o.rng, seed), ..o }, i)
        } else {
            selected(o, i)
        },
    }
}

/// Where going back leads.
pub open spec fn backward(o: Order) -> Option<int> {
    if o.shuffle {
        if o.history.len() < 2 {
            None
        } else {
            Some(o.history[o.history.len() - 2] as int)
        }
    } else {
        match o.current {
            Some(c) if c > 0 => Some(c - 1),
            _ => None,
        }
    }
}

/// The state after going back: in random order through the entries that were
/// really played.
pub open spec fn rewound(o: Order) -> Order {
    match backward(o) {
        None => o,
        Some(i) => Order {
            current: Some(i as usize),
            history: if o.shuffle {
                o.history.drop_last()
            } else {
                o.history
            },
            ..o
        },
    }
}

/// The state after an entry is removed: the cursor stays on its entry.
pub open spec fn removed(o: Order, index: int) -> Order {
    if 0 <= index < o.items.len() {
        let current = match o.current {
            Some(c) => if c == index {
                None
            } else if c > index {
                Some((c - 1) as usize)
            } else {
                Some(c)
            },
            None => None,
        };
        Order {
            items: o.items.remove(index),
            current,
            history: fresh_history(o.shuffle, current),
            ..o
        }
    } else {
        o
    }
}

/// The state after an entry is moved by `delta` places, in exchange for the
/// one that is there: the cursor stays on its entry.
pub open spec fn shifted(o: Order, index: int, delta: int) -> Order {
    let target = index + delta;
    if 0 <= index < o.items.len() && 0 <= target < o.items.len() {
        let current = match o.current {
            Some(c) => if c == index {
                Some(target as usize)
            } else if c == target {
                Some(index as usize)
            } else {
                Some(c)
            },
            None => None,
        };
        Order {
            items: o.items.update(index, o.items[target]).update(target, o.items[index]),
            current,
            history: fresh_history(o.shuffle, current),
            ..o
        }
    } else {
        o
    }
}

/// An ordered playlist with a cursor.
#[derive(Debug)]
pub struct Playlist {
    items: Vec<PlaylistItem>,
    current: Option<usize>,
    shuffle: bool,
    shuffle_history: Vec<usize>,
    rng: u64,
}

impl View for Playlist {
    type V = Order;

    closed spec fn view(&self) -> Order {
        Order {
            items: entries(self.items@),
            current: self.current,
            shuffle: self.shuffle,
            history: self.shuffle_history@,
            rng: self.rng,
        }
    }
}

/// The state of an empty playlist.
pub open spec fn empty_order() -> Order {
    Order { items: seq![], current: None, shuffle: false, history: seq![], rng: 0 }
}

impl Default for Playlist {
    fn default() -> (p: Self)
        ensures
            p@ == empty_order(),
            is_valid(p@),
    {
        let p = Playlist {
            items: Vec::new(),
            current: None,
            shuffle: false,
            shuffle_history: Vec::new(),
            rng: 0,
        };
        assert(p@ =~= empty_order());
        p
    }
}

/// The entries below `n` that are not in `history`.
fn candidates(n: usize, history: &Vec<usize>) -> (r: Vec<usize>)
    ensures
        r@ == unplayed(n as nat, history@),
{
    let mut out: Vec<usize> = Vec::new();
    let mut i: usize = 0;
    while i < n
        invariant
            i <= n,
            out@ == unplayed(i as nat, history@),
        decreases n - i,
    {
        let mut played: bool = false;
        let mut k: usize = 0;
        while k < history.len()
            invariant
                k <= history@.len(),
                played <==> exists|j: int| 0 <= j < k && #[trigger] history@[j] == i,
            decreases history@.len() - k,
        {
            if history[k] == i {
                played = true;
            }
            k = k + 1;
        }
        assert(played <==> history@.contains(i));
        if !played {
            out.push(i);
        }
        i = i + 1;
    }
    out
}

/// What is unplayed is an entry, and is not in the history.
pub proof fn lemma_unplayed(n: nat, history: Seq<usize>)
    requires
        n <= usize::MAX,
    ensures
        forall|i: int|
            0 <= i < unplayed(n, history).len() ==> (#[trigger] unplayed(n, history)[i]) < n
                && !history.contains(unplayed(n, history)[i]),
        forall|x: usize|
            x < n && !history.contains(x) ==> #[trigger] unplayed(n, history).contains(x),
    decreases n,
{
    if n > 0 {
        let m = (n - 1) as nat;
        lemma_unplayed(m, history);
        let less = unplayed(m, history);
        let all = unplayed(n, history);
        assert forall|i: int| 0 <= i < all.len() implies (#[trigger] all[i]) < n
            && !history.contains(all[i]) by {
            if i < less.len() {
                assert(all[i] == less[i]);
            }
        }
        assert forall|x: usize| x < n && !history.contains(x) implies #[trigger] all.contains(
            x,
        ) by {
            if x < m {
                assert(less.contains(x));
                let k = choose|k: int| 0 <= k < less.len() && less[k] == x;
                assert(all[k] == x);
            } else {
                assert(all[all.len() - 1] == x);
            }
        }
    }
}

/// With two entries or more there is always one to draw, and it is not the
/// current one.
pub proof fn lemma_drawn(o: Order, rng: u64)
    requires
        is_valid(o),
        o.shuffle,
        2 <= o.items.len() <= usize::MAX,
    ensures
        unplayed(o.items.len(), cycle_history(o)).len() > 0,
        0 <= drawn(o, rng) < o.items.len(),
        !cycle_history(o).contains(drawn(o, rng) as usize),
        o.current != Some(drawn(o, rng) as usize),
{
    let n = o.items.len();
    let h = cycle_history(o);
    lemma_unplayed(n, h);
    lemma_unplayed(n, o.history);
    let c = unplayed(n, h);
    if unplayed(n, o.history).len() == 0 {
        let other: usize = if o.current == Some(0usize) { 1 } else { 0 };
        assert(!h.contains(other));
        assert(c.contains(other));
    }
    assert(c.len() > 0);
    let k = rng as int % c.len() as int;
    assert(0 <= k < c.len());
    assert(c[k] < n && !h.contains(c[k]));
    if let Some(x) = o.current {
        assert(h[h.len() - 1] == x);
        assert(h.contains(x));
    }
}

/// Choosing an entry keeps the state valid.
pub proof fn lemma_selected_valid(o: Order, index: int)
    requires
        is_valid(o),
        o.items.len() <= usize::MAX,
    ensures
        is_valid(selected(o, index)),
{
    let s = selected(o, index);
    if 0 <= index < o.items.len() {
        assert forall|i: int, j: int|
            0 <= i && j == i + 1 && j < s.history.len() implies #[trigger] s.history[i]
            != #[trigger] s.history[j] by {
            if j < o.history.len() {
                assert(s.history[i] == o.history[i] && s.history[j] == o.history[j]);
            }
        }
        assert forall|i: int| 0 <= i < s.history.len() implies (#[trigger] s.history[i])
            < s.items.len() by {
            if i < o.history.len() {
                assert(s.history[i] == o.history[i]);
            }
        }
    }
}

/// Going forward keeps the state valid.
pub proof fn lemma_advanced_valid(o: Order, seed: u64)
    requires
        is_valid(o),
        o.items.len() <= usize::MAX,
    ensures
        is_valid(advanced(o, seed)),
        forward(o, seed) matches Some(i) ==> 0 <= i < o.items.len() && advanced(o, seed).current
            == Some(i as usize),
{
    if o.shuffle && o.items.len() > 1 {
        let rng = next_rng(o.rng, seed);
        lemma_drawn(o, rng);
        let base = Order { history: cycle_history(o), rng, ..o };
        assert(is_valid(base)) by {
            if unplayed(o.items.len(), o.history).len() == 0 {
                lemma_unplayed(o.items.len(), o.history);
                if o.current is None {
                    assert(!o.history.contains(0usize));
                }
            }
        }
        lemma_selected_valid(base, drawn(o, rng));
    } else if let Some(i) = forward(o, seed) {
        lemma_selected_valid(o, i);
    }
}

/// Going back keeps the state valid.
pub proof fn lemma_rewound_valid(o: Order)
    requires
        is_valid(o),
        o.items.len() <= usize::MAX,
    ensures
        is_valid(rewound(o)),
        backward(o) matches Some(i) ==> 0 <= i < o.items.len(),
{
    let r = rewound(o);
    if backward(o) is Some && o.shuffle {
        let h = o.history;
        assert(h[h.len() - 2] < o.items.len());
        assert forall|i: int, j: int|
            0 <= i && j == i + 1 && j < r.history.len() implies #[trigger] r.history[i]
            != #[trigger] r.history[j] by {
            assert(r.history[i] == h[i] && r.history[j] == h[j]);
        }
    }
}

/// Exchanges two elements.
fn swap_at<T>(v: &mut Vec<T>, i: usize, j: usize)
    requires
        i < old(v)@.len(),
        j < old(v)@.len(),
    ensures
        final(v)@ == old(v)@.update(i as int, old(v)@[j as int]).update(
            j as int,
            old(v)@[i as int],
        ),
{
    let low: usize = if i < j {
        i
    } else {
        j
    };
    let high: usize = if i < j {
        j
    } else {
        i
    };
    if low < high {
        let b = v.remove(high);
        let a = v.remove(low);
        v.insert(low, b);
        v.insert(high, a);
    }
}

impl Playlist {
    /// The entries.
    pub fn items(&self) -> (r: &Vec<PlaylistItem>)
        ensures
            entries(r@) == self@.items,
    {
        &self.items
    }

    /// The number of entries.
    pub fn len(&self) -> (n: usize)
        ensures
            n == self@.items.len(),
    {
        self.items.len()
    }

    /// Whether there is no entry.
    pub fn is_empty(&self) -> (r: bool)
        ensures
            r == (self@.items.len() == 0),
    {
        self.items.len() == 0
    }

    /// The place of the cursor.
    pub fn current_index(&self) -> (r: Option<usize>)
        ensures
            r == self@.current,
    {
        self.current
    }

    /// The entry under the cursor.
    pub fn current(&self) -> (r: Option<&PlaylistItem>)
        requires
            is_valid(self@),
        ensures
            r matches Some(item) ==> self@.current matches Some(c) && item@ == self@.items[c as int],
            r is Some <==> self@.current is Some,
    {
        match self.current {
            Some(c) => {
                assert(self@.items[c as int] == self.items@[c as int]@);
                Some(&self.items[c])
            },
            None => None,
        }
    }

    /// Whether the entries are played in random order.
    pub fn shuffle(&self) -> (r: bool)
        ensures
            r == self@.shuffle,
    {
        self.shuffle
    }

    /// Adds an entry at the end and says where it stands.
    pub fn add(&mut self, item: PlaylistItem) -> (index: usize)
        requires
            is_valid(old(self)@),
        ensures
            final(self)@ == (Order { items: old(self)@.items.push(item@), ..old(self)@ }),
            index == old(self)@.items.len(),
            is_valid(final(self)@),
    {
        let index: usize = self.items.len();
        self.items.push(item);
        assert(self@ =~= (Order { items: old(self)@.items.push(item@), ..old(self)@ }));
        index
    }

    /// Begins the history anew at the current entry.
    fn reset_shuffle_history(&mut self)
        ensures
            final(self)@ == (Order {
                history: fresh_history(old(self)@.shuffle, old(self)@.current),
                ..old(self)@
            }),
    {
        self.shuffle_history.clear();
        if self.shuffle {
            if let Some(c) = self.current {
                self.shuffle_history.push(c);
            }
        }
        assert(self@ =~= (Order {
            history: fresh_history(old(self)@.shuffle, old(self)@.current),
            ..old(self)@
        }));
    }

    /// Removes an entry; the cursor stays on its own.
    pub fn remove(&mut self, index: usize)
        requires
            is_valid(old(self)@),
        ensures
            final(self)@ == removed(old(self)@, index as int),
            is_valid(final(self)@),
    {
        if index >= self.items.len() {
            return;
        }
        let _ = self.items.remove(index);
        self.current = match self.current {
            Some(c) => if c == index {
                None
            } else if c > index {
                Some(c - 1)
            } else {
                Some(c)
            },
            None => None,
        };
        self.reset_shuffle_history();
        assert(self@ =~= removed(old(self)@, index as int));
    }

    /// Removes all the entries.
    pub fn clear(&mut self)
        ensures
            final(self)@ == (Order {
                items: seq![],
                current: None,
                history: seq![],
                ..old(self)@
            }),
            is_valid(final(self)@),
    {
        self.items.clear();
        self.current = None;
        self.shuffle_history.clear();
        assert(self@ =~= (Order { items: seq![], current: None, history: seq![], ..old(self)@ }));
    }

    /// Puts other entries in place of those that are there.
    pub(super) fn replace_items(&mut self, items: Vec<PlaylistItem>)
        ensures
            final(self)@ == (Order {
                items: entries(items@),
                current: None,
                history: seq![],
                ..old(self)@
            }),
            is_valid(final(self)@),
    {
        self.clear();
        self.items = items;
        assert(self@ =~= (Order {
            items: entries(items@),
            current: None,
            history: seq![],
            ..old(self)@
        }));
    }

    /// Moves an entry by `delta` places, in exchange for the one that is there.
    pub fn shift(&mut self, index: usize, delta: i32)
        requires
            is_valid(old(self)@),
        ensures
            final(self)@ == shifted(old(self)@, index as int, delta as int),
            is_valid(final(self)@),
    {
        let len: i128 = self.items.len() as i128;
        let goal: i128 = index as i128 + delta as i128;
        if index as i128 >= len || goal < 0 || goal >= len {
            return;
        }
        let target: usize = goal as usize;
        swap_at(&mut self.items, index, target);
        self.current = match self.current {
            Some(c) => if c == index {
                Some(target)
            } else if c == target {
                Some(index)
            } else {
                Some(c)
            },
            None => None,
        };
        self.reset_shuffle_history();
        assert(self@ =~= shifted(old(self)@, index as int, delta as int));
    }

    /// Chooses random or given order. The history begins anew at the current
    /// entry, which will not be played again at once.
    pub fn set_shuffle(&mut self, on: bool)
        requires
            is_valid(old(self)@),
        ensures
            final(self)@ == (Order {
                shuffle: on,
                history: fresh_history(on, old(self)@.current),
                ..old(self)@
            }),
            is_valid(final(self)@),
    {
        self.shuffle = on;
        self.reset_shuffle_history();
    }

    /// Puts the cursor on an entry and returns it.
    pub fn select(&mut self, index: usize) -> (r: Option<&PlaylistItem>)
        requires
            is_valid(old(self)@),
        ensures
            final(self)@ == selected(old(self)@, index as int),
            is_valid(final(self)@),
            r matches Some(item) ==> index < old(self)@.items.len() && item@
                == old(self)@.items[index as int],
            r is Some <==> index < old(self)@.items.len(),
    {
        let n: usize = self.items.len();
        proof {
            lemma_selected_valid(self@, index as int);
        }
        if index < n {
            self.current = Some(index);
            let repeated: bool = self.shuffle_history.len() > 0
                && self.shuffle_history[self.shuffle_history.len() - 1] == index;
            if self.shuffle && !repeated {
                self.shuffle_history.push(index);
            }
            assert(self@ =~= selected(old(self)@, index as int));
            assert(self@.items[index as int] == self.items@[index as int]@);
            Some(&self.items[index])
        } else {
            None
        }
    }

    /// Draws the next entry, seeding the generator with `seed` where it is not
    /// seeded.
    fn draw(&mut self, seed: u64) -> (pick: usize)
        requires
            is_valid(old(self)@),
            old(self)@.shuffle,
            old(self)@.items.len() > 1,
        ensures
            final(self)@ == (Order {
                history: cycle_history(old(self)@),
                rng: next_rng(old(self)@.rng, seed),
                ..old(self)@
            }),
            pick == drawn(old(self)@, next_rng(old(self)@.rng, seed)),
    {
        let n: usize = self.items.len();
        let ghost o = self@;
        proof {
            lemma_drawn(o, next_rng(o.rng, seed));
        }
        let mut list = candidates(n, &self.shuffle_history);
        if list.len() == 0 {
            self.reset_shuffle_history();
            list = candidates(n, &self.shuffle_history);
        }
        let mut x: u64 = if self.rng == 0 {
            seed
        } else {
            self.rng
        };
        x = x ^ (x << 13);
        x = x ^ (x >> 7);
        x = x ^ (x << 17);
        self.rng = x;
        assert(x == next_rng(o.rng, seed));
        assert(list@ == unplayed(o.items.len(), cycle_history(o)));
        assert(self@ =~= (Order { history: cycle_history(o), rng: x, ..o }));
        let count: u64 = list.len() as u64;
        list[(x % count) as usize]
    }

    /// Goes forward, seeding the generator with `seed` where it is not seeded.
    pub fn advance_seeded(&mut self, seed: u64) -> (r: Option<&PlaylistItem>)
        requires
            is_valid(old(self)@),
        ensures
            final(self)@ == advanced(old(self)@, seed),
            is_valid(final(self)@),
            r matches Some(item) ==> forward(old(self)@, seed) matches Some(i) && item@
                == old(self)@.items[i],
            r is Some <==> forward(old(self)@, seed) is Some,
    {
        let n: usize = self.items.len();
        let ghost o = self@;
        proof {
            lemma_advanced_valid(o, seed);
        }
        if n == 0 {
            return None;
        }
        let index: usize = if !self.shuffle {
            match self.current {
                Some(c) => c + 1,
                None => 0,
            }
        } else if n == 1 {
            0
        } else {
            let ghost base = Order { history: cycle_history(o), rng: next_rng(o.rng, seed), ..o };
            proof {
                lemma_unplayed(o.items.len(), o.history);
                lemma_drawn(o, next_rng(o.rng, seed));
                if o.current is None {
                    assert(!o.history.contains(0usize));
                }
                assert(is_valid(base));
            }
            self.draw(seed)
        };
        self.select(index)
    }

    /// Goes forward: to the next entry, or in random order to one that was not
    /// played in this cycle. When all were played a new cycle begins, which
    /// does not play the current one again at once.
    pub fn advance(&mut self) -> (r: Option<&PlaylistItem>)
        requires
            is_valid(old(self)@),
        ensures
            exists|seed: u64|
                seed != 0 && final(self)@ == #[trigger] advanced(old(self)@, seed) && (r is Some
                    <==> forward(old(self)@, seed) is Some),
            is_valid(final(self)@),
            r matches Some(item) ==> final(self)@.current matches Some(i) && i
                < old(self)@.items.len() && item@ == old(self)@.items[i as int],
    {
        let seed: u64 = xorshift_seed();
        let n: usize = self.items.len();
        proof {
            lemma_advanced_valid(self@, seed);
        }
        self.advance_seeded(seed)
    }

    /// Goes back: to the entry before or, in random order, to the one that was
    /// played before.
    pub fn previous(&mut self) -> (r: Option<&PlaylistItem>)
        requires
            is_valid(old(self)@),
        ensures
            final(self)@ == rewound(old(self)@),
            is_valid(final(self)@),
            r matches Some(item) ==> backward(old(self)@) matches Some(i) && item@
                == old(self)@.items[i],
            r is Some <==> backward(old(self)@) is Some,
    {
        let ghost o = self@;
        let count: usize = self.items.len();
        proof {
            lemma_rewound_valid(o);
        }
        let index: usize;
        if self.shuffle {
            let n: usize = self.shuffle_history.len();
            if n < 2 {
                return None;
            }
            let _ = self.shuffle_history.pop();
            index = self.shuffle_history[n - 2];
        } else {
            let c: usize = match self.current {
                Some(c) => c,
                None => 0,
            };
            if c == 0 {
                return None;
            }
            index = c - 1;
        }
        self.current = Some(index);
        assert(self@ =~= rewound(o));
        assert(o.items[index as int] == self.items@[index as int]@);
        Some(&self.items[index])
    }
}

// ---- Laws ------------------------------------------------------------------

/// Playing an entry leaves one fewer to play.
proof fn lemma_unplayed_push(n: nat, history: Seq<usize>, p: usize)
    requires
        n <= usize::MAX,
        !history.contains(p),
    ensures
        unplayed(n, history.push(p)).len() == unplayed(n, history).len() - (if p < n {
            1int
        } else {
            0
        }),
    decreases n,
{
    if n > 0 {
        let m = (n - 1) as nat;
        lemma_unplayed_push(m, history, p);
        let x = (n - 1) as usize;
        let longer = history.push(p);
        assert(longer.contains(x) <==> history.contains(x) || x == p) by {
            if history.contains(x) {
                let k = choose|k: int| 0 <= k < history.len() && history[k] == x;
                assert(longer[k] == x);
            }
            if x == p {
                assert(longer[history.len() as int] == x);
            }
        }
    }
}

/// In random order, as long as an entry is left to play in this cycle, going
/// forward plays one that was not played, and leaves one fewer: a cycle plays
/// every entry once.
pub proof fn law_shuffle_plays_each_entry_once(o: Order, seed: u64)
    requires
        is_valid(o),
        o.shuffle,
        2 <= o.items.len() <= usize::MAX,
        unplayed(o.items.len(), o.history).len() > 0,
    ensures
        advanced(o, seed).current matches Some(p) && !o.history.contains(p) && advanced(
            o,
            seed,
        ).history == o.history.push(p),
        unplayed(o.items.len(), advanced(o, seed).history).len() == unplayed(
            o.items.len(),
            o.history,
        ).len() - 1,
{
    let rng = next_rng(o.rng, seed);
    lemma_drawn(o, rng);
    let p = drawn(o, rng) as usize;
    if o.history.len() > 0 && o.history.last() == p {
        assert(o.history[o.history.len() - 1] == p);
    }
    lemma_unplayed_push(o.items.len(), o.history, p);
}

/// In random order, when everything was played a new cycle begins at the
/// current entry, and does not play it again at once.
pub proof fn law_shuffle_begins_a_new_cycle(o: Order, seed: u64)
    requires
        is_valid(o),
        o.shuffle,
        2 <= o.items.len() <= usize::MAX,
        unplayed(o.items.len(), o.history).len() == 0,
    ensures
        o.current matches Some(c) && advanced(o, seed).current matches Some(p) && p != c
            && advanced(o, seed).history == seq![c, p],
{
    let rng = next_rng(o.rng, seed);
    lemma_drawn(o, rng);
    lemma_unplayed(o.items.len(), o.history);
    if o.current is None {
        assert(!o.history.contains(0usize));
    }
    let c = o.current->0;
    let p = drawn(o, rng) as usize;
    assert(seq![c].push(p) == seq![c, p]);
}

/// Going back after going forward leads to where one was, in any order.
pub proof fn law_previous_undoes_advance(o: Order, seed: u64)
    requires
        is_valid(o),
        2 <= o.items.len() <= usize::MAX,
        o.current is Some,
        forward(o, seed) is Some,
    ensures
        rewound(advanced(o, seed)).current == o.current,
        rewound(advanced(o, seed)).items == o.items,
        !o.shuffle ==> rewound(advanced(o, seed)) == o,
{
    if o.shuffle {
        let rng = next_rng(o.rng, seed);
        lemma_drawn(o, rng);
        let h = cycle_history(o);
        let p = drawn(o, rng) as usize;
        let c = o.current->0;
        assert(h.last() == c);
        assert(h[h.len() - 1] == c);
        assert(h.contains(c));
        assert(advanced(o, seed).history == h.push(p));
        assert(h.push(p).drop_last() == h);
    } else {
        assert(rewound(advanced(o, seed)) =~= o);
    }
}

/// Moving an entry and moving it back changes nothing but the history, which
/// begins anew.
pub proof fn law_shift_is_undone_by_shifting_back(o: Order, index: int, delta: int)
    requires
        is_valid(o),
        o.items.len() <= usize::MAX,
        0 <= index < o.items.len(),
        0 <= index + delta < o.items.len(),
    ensures
        shifted(shifted(o, index, delta), index + delta, -delta).items == o.items,
        shifted(shifted(o, index, delta), index + delta, -delta).current == o.current,
{
    assert(shifted(shifted(o, index, delta), index + delta, -delta).items =~= o.items);
}

/// Whatever is removed, moved or chosen, the cursor stays on the entry that it
/// was on, unless that one is removed.
pub proof fn law_cursor_follows_its_entry(o: Order, index: int, delta: int, c: usize)
    requires
        is_valid(o),
        o.items.len() <= usize::MAX,
        o.current == Some(c),
    ensures
        index != c ==> (removed(o, index).current matches Some(d) && removed(o, index).items[d as int]
            == o.items[c as int]),
        0 <= index == c ==> removed(o, index).current is None,
        shifted(o, index, delta).current matches Some(d) && shifted(o, index, delta).items[d as int]
            == o.items[c as int],
{
}

/// In order, going forward leads from each entry to the one below it and from the
/// last one nowhere; without a cursor it leads to the first. Going back leads to
/// the one above. Neither touches the entries.
pub proof fn law_entries_are_played_in_order(o: Order, seed: u64, c: usize)
    requires
        is_valid(o),
        !o.shuffle,
        0 < o.items.len() <= usize::MAX,
    ensures
        advanced(o, seed).items == o.items && rewound(o).items == o.items,
        o.current is None ==> advanced(o, seed).current == Some(0usize) && rewound(o) == o,
        o.current == Some(c) && c + 1 < o.items.len() ==> advanced(o, seed).current == Some(
            (c + 1) as usize,
        ),
        o.current == Some(c) && c + 1 == o.items.len() ==> forward(o, seed) is None && advanced(
            o,
            seed,
        ) == o,
        o.current == Some(c) && c > 0 ==> rewound(o).current == Some((c - 1) as usize),
        o.current == Some(0usize) ==> backward(o) is None && rewound(o) == o,
{
}

/// In random order any entry that was not played in this cycle can come next, and
/// one that was played cannot while such an entry is left.
pub proof fn law_any_unplayed_entry_can_come_next(o: Order, p: usize)
    requires
        is_valid(o),
        o.shuffle,
        2 <= o.items.len() <= usize::MAX,
        p < o.items.len(),
        !o.history.contains(p),
    ensures
        exists|rng: u64| #[trigger] drawn(o, rng) == p,
        forall|rng: u64| !o.history.contains((#[trigger] drawn(o, rng)) as usize),
{
    let n = o.items.len();
    lemma_unplayed(n, o.history);
    let u = unplayed(n, o.history);
    assert(u.contains(p));
    let k = choose|k: int| 0 <= k < u.len() && u[k] == p;
    lemma_unplayed_is_short(n, o.history);
    assert(k as u64 as int == k);
    vstd::arithmetic::div_mod::lemma_small_mod(k as nat, u.len());
    assert(drawn(o, k as u64) == p);
    assert forall|rng: u64| !o.history.contains((#[trigger] drawn(o, rng)) as usize) by {
        lemma_drawn(o, rng);
    }
}

proof fn lemma_unplayed_is_short(n: nat, history: Seq<usize>)
    ensures
        unplayed(n, history).len() <= n,
    decreases n,
{
    if n > 0 {
        lemma_unplayed_is_short((n - 1) as nat, history);
    }
}

/// A chosen entry is the current one, and in random order the last one that was
/// played; an entry that is not there cannot be chosen.
pub proof fn law_chosen_entry_is_current(o: Order, index: int)
    requires
        is_valid(o),
        o.items.len() <= usize::MAX,
    ensures
        selected(o, index).items == o.items,
        selected(o, index).shuffle == o.shuffle,
        0 <= index < o.items.len() ==> selected(o, index).current == Some(index as usize),
        0 <= index < o.items.len() && o.shuffle ==> selected(o, index).history.last() == index,
        !(0 <= index < o.items.len()) ==> selected(o, index) == o,
        is_valid(selected(o, index)),
{
}

/// Removing an entry moves those below it up by one and leaves the others; it
/// changes nothing where there is no such entry.
pub proof fn law_removal_closes_the_gap(o: Order, index: int, k: int)
    requires
        0 <= k < o.items.len() - 1,
    ensures
        0 <= index < o.items.len() ==> {
            let r = removed(o, index);
            &&& r.items.len() == o.items.len() - 1
            &&& k < index ==> r.items[k] == o.items[k]
            &&& k >= index ==> r.items[k] == o.items[k + 1]
            &&& r.shuffle == o.shuffle && r.rng == o.rng
        },
        !(0 <= index < o.items.len()) ==> removed(o, index) == o,
{
}

/// Moving an entry exchanges it with the one that stands where it goes and leaves
/// the others; past either end nothing is moved.
pub proof fn law_shift_exchanges_two_entries(o: Order, index: int, delta: int, k: int)
    requires
        0 <= index < o.items.len(),
        0 <= k < o.items.len(),
    ensures
        0 <= index + delta < o.items.len() ==> {
            let s = shifted(o, index, delta).items;
            &&& s.len() == o.items.len()
            &&& s[index] == o.items[index + delta]
            &&& s[index + delta] == o.items[index]
            &&& k != index && k != index + delta ==> s[k] == o.items[k]
        },
        !(0 <= index + delta < o.items.len()) ==> shifted(o, index, delta) == o,
{
}

/// In random order a list of one entry plays it again and again, and an empty one
/// nothing.
pub proof fn law_short_lists(o: Order, seed: u64)
    requires
        is_valid(o),
    ensures
        o.items.len() == 0 ==> forward(o, seed) is None && advanced(o, seed) == o,
        o.items.len() == 1 && o.shuffle ==> forward(o, seed) == Some(0int) && advanced(
            o,
            seed,
        ).current == Some(0usize),
{
}

/// Where the entries change, the cycle of a random order begins anew at the current
/// entry.
pub proof fn law_changed_entries_begin_a_new_cycle(o: Order, index: int, delta: int)
    requires
        is_valid(o),
        0 <= index < o.items.len() <= usize::MAX,
        0 <= index + delta < o.items.len(),
    ensures
        ({
            let r = removed(o, index);
            r.history == (if o.shuffle && r.current is Some {
                seq![r.current->0]
            } else {
                seq![]
            })
        }),
        ({
            let s = shifted(o, index, delta);
            s.history == (if o.shuffle && s.current is Some {
                seq![s.current->0]
            } else {
                seq![]
            })
        }),
        is_valid(removed(o, index)),
        is_valid(shifted(o, index, delta)),
{
    assert(o.items.remove(index).len() == o.items.len() - 1);
}

/// A seed is the number of nanoseconds of its time, in sixty-four bits, made odd.
pub proof fn law_seed_is_the_time(seconds: u64, nanos: u32)
    ensures
        ({
            let n = (seconds * 1_000_000_000 + nanos) % 0x1_0000_0000_0000_0000;
            seed_at(Some((seconds, nanos))) == (if n % 2 == 0 {
                n + 1
            } else {
                n
            })
        }),
{
    let x = ((seconds * 1_000_000_000 + nanos) % 0x1_0000_0000_0000_0000) as u64;
    assert(x % 2 == 0 ==> (x | 1) == x + 1) by (bit_vector);
    assert(x % 2 == 1 ==> (x | 1) == x) by (bit_vector);
}

/// The generator leads from different states to different ones.
pub proof fn law_generator_loses_nothing(x: u64, y: u64)
    requires
        xorshift(x) == xorshift(y),
    ensures
        x == y,
{
    let (a, p) = (x ^ (x << 13), y ^ (y << 13));
    let (b, q) = (a ^ (a >> 7), p ^ (p >> 7));
    assert(b == q) by (bit_vector)
        requires
            b ^ (b << 17) == q ^ (q << 17),
    ;
    assert(a == p) by (bit_vector)
        requires
            a ^ (a >> 7) == p ^ (p >> 7),
    ;
    assert(x == y) by (bit_vector)
        requires
            x ^ (x << 13) == y ^ (y << 13),
    ;
}

} // verus!
