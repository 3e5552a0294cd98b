//! The tab collection.
//!
//! An ordered, keyed set of tabs, a most-recently-used history of keys, and
//! the current selection. Keys are handed out by a counter that only grows,
//! so no key is ever reused. Presentation order is ascending key order, that
//! is creation order; the history only governs which tab is revealed after a
//! close. Every key in the history and in the current selection refers to a
//! live tab, and the current selection is always the top of the history.

use vstd::prelude::*;
use crate::config::Config;
use crate::documents::Documents;
use crate::documents;
use crate::paths;

pub mod create;
pub mod home;

verus! {

/// One addressable view in the interface.
pub enum Tab {
    Home,
    Create(create::State),
    Document(Vec<u8>),
}

/// The variant of a tab, without its state.
#[derive(Clone, Copy, PartialEq, Eq, Structural, Debug)]
pub enum TabKind {
    Home,
    Create,
    Document,
}

/// The bytes of `Home`.
pub open spec fn home_label() -> Seq<u8> {
    seq![72u8, 111u8, 109u8, 101u8]
}

/// The bytes of `New`.
pub open spec fn new_label() -> Seq<u8> {
    seq![78u8, 101u8, 119u8]
}

impl Tab {
    pub open spec fn spec_kind(&self) -> TabKind {
        match self {
            Tab::Home => TabKind::Home,
            Tab::Create(_) => TabKind::Create,
            Tab::Document(_) => TabKind::Document,
        }
    }

    pub fn kind(&self) -> (k: TabKind)
        ensures
            k == self.spec_kind(),
    {
        match self {
            Tab::Home => TabKind::Home,
            Tab::Create(_) => TabKind::Create,
            Tab::Document(_) => TabKind::Document,
        }
    }

    /// What the tab bar shows: a fixed caption, or the document's file name.
    pub open spec fn spec_label(&self) -> Seq<u8> {
        match self {
            Tab::Home => home_label(),
            Tab::Create(_) => new_label(),
            Tab::Document(path) => paths::file_name_of(path@),
        }
    }

    pub fn label(&self) -> (r: Vec<u8>)
        ensures
            r@ == self.spec_label(),
    {
        match self {
            Tab::Home => {
                let mut r: Vec<u8> = Vec::new();
                r.push(72);
                r.push(111);
                r.push(109);
                r.push(101);
                proof {
                    assert(r@ =~= home_label());
                }
                r
            },
            Tab::Create(_) => {
                let mut r: Vec<u8> = Vec::new();
                r.push(78);
                r.push(101);
                r.push(119);
                proof {
                    assert(r@ =~= new_label());
                }
                r
            },
            Tab::Document(path) => paths::file_name(path),
        }
    }
}

pub fn new_home_tab() -> (t: Tab)
    ensures
        t == Tab::Home,
{
    Tab::Home
}

pub fn new_create_tab() -> (t: Tab)
    ensures
        t matches Tab::Create(s) && s.is_initial(),
{
    Tab::Create(create::State::new())
}

pub fn new_document_tab(path: Vec<u8>) -> (t: Tab)
    ensures
        t == Tab::Document(path),
{
    Tab::Document(path)
}

/// Whether some entry of the keyed sequence holds `key`.
pub open spec fn seq_has_key(s: Seq<(usize, Tab)>, key: usize) -> bool {
    exists|i: int| 0 <= i < s.len() && s[i].0 == key
}

/// The mathematical state of the collection.
#[verifier::ext_equal]
pub ghost struct TabsView {
    pub tabs: Seq<(usize, Tab)>,
    pub next_id: usize,
    pub history: Seq<usize>,
    pub current: Option<usize>,
}

impl TabsView {
    pub open spec fn empty() -> TabsView {
        TabsView { tabs: Seq::empty(), next_id: 0, history: Seq::empty(), current: None }
    }

    pub open spec fn has_key(self, key: usize) -> bool {
        seq_has_key(self.tabs, key)
    }

    pub open spec fn key_index(self, key: usize) -> int {
        choose|i: int| 0 <= i < self.tabs.len() && self.tabs[i].0 == key
    }

    pub open spec fn tab_at(self, key: usize) -> Tab {
        self.tabs[self.key_index(key)].1
    }

    pub open spec fn keys_sorted(self) -> bool {
        forall|i: int, j: int| 0 <= i < j < self.tabs.len() ==> self.tabs[i].0 < self.tabs[j].0
    }

    /// Keys appear in ascending order and below the counter; the history and
    /// the current selection only name live tabs; the current selection is
    /// the top of the history, and without one the history is empty.
    pub open spec fn wf(self) -> bool {
        &&& self.keys_sorted()
        &&& forall|i: int| 0 <= i < self.tabs.len() ==> (#[trigger] self.tabs[i]).0 < self.next_id
        &&& forall|i: int| 0 <= i < self.history.len() ==> self.has_key(#[trigger] self.history[i])
        &&& match self.current {
            Some(k) => self.history.len() > 0 && self.history.last() == k && self.has_key(k),
            None => self.history.len() == 0,
        }
    }
}

/// Selecting a tab records it at the top of the history.
pub open spec fn spec_switch_to(v: TabsView, key: usize) -> TabsView {
    TabsView { tabs: v.tabs, next_id: v.next_id, history: v.history.push(key), current: Some(key) }
}

/// Pushing inserts under the next key, selects the new tab, and bumps the
/// counter.
pub open spec fn spec_push(v: TabsView, tab: Tab) -> TabsView {
    TabsView {
        tabs: v.tabs.push((v.next_id, tab)),
        next_id: (v.next_id + 1) as usize,
        history: v.history.push(v.next_id),
        current: Some(v.next_id),
    }
}

/// The history with every occurrence of `key` removed.
pub open spec fn remove_key(h: Seq<usize>, key: usize) -> Seq<usize>
    decreases h.len(),
{
    if h.len() == 0 {
        Seq::empty()
    } else {
        let rest = remove_key(h.drop_last(), key);
        if h.last() == key {
            rest
        } else {
            rest.push(h.last())
        }
    }
}

/// The history with runs of adjacent duplicates collapsed to one entry.
pub open spec fn dedup_adjacent(h: Seq<usize>) -> Seq<usize>
    decreases h.len(),
{
    if h.len() == 0 {
        Seq::empty()
    } else {
        let rest = dedup_adjacent(h.drop_last());
        if rest.len() > 0 && rest.last() == h.last() {
            rest
        } else {
            rest.push(h.last())
        }
    }
}

/// Closing a live key scrubs it from the history, collapses the duplicates
/// that scrubbing may expose, and removes the tab. If the closed tab was
/// current, the most recent remaining history entry is revealed, or no tab at
/// all when none remains. Closing an absent key changes nothing.
pub open spec fn spec_close(v: TabsView, key: usize) -> TabsView {
    if !v.has_key(key) {
        v
    } else {
        let tabs1 = v.tabs.remove(v.key_index(key));
        let h1 = dedup_adjacent(remove_key(v.history, key));
        if v.current == Some(key) {
            if h1.len() > 0 {
                TabsView { tabs: tabs1, next_id: v.next_id, history: h1, current: Some(h1.last()) }
            } else {
                TabsView { tabs: tabs1, next_id: v.next_id, history: h1, current: None }
            }
        } else {
            TabsView { tabs: tabs1, next_id: v.next_id, history: h1, current: v.current }
        }
    }
}

/// What closing returns: the removed tab's state, if the key was live.
pub open spec fn spec_closed_tab(v: TabsView, key: usize) -> Option<Tab> {
    if v.has_key(key) {
        Some(v.tab_at(key))
    } else {
        None
    }
}

/// Clearing empties the collection outright: no tabs, no history, no current
/// selection. The counter keeps its value, so cleared keys are never reused.
pub open spec fn spec_clear(v: TabsView) -> TabsView {
    TabsView { tabs: Seq::empty(), next_id: v.next_id, history: Seq::empty(), current: None }
}

/// The index of the first tab of the given kind, in key order.
pub open spec fn first_match(tabs: Seq<(usize, Tab)>, kind: TabKind) -> Option<int>
    decreases tabs.len(),
{
    if tabs.len() == 0 {
        None
    } else if tabs[0].1.spec_kind() == kind {
        Some(0)
    } else {
        match first_match(tabs.skip(1), kind) {
            Some(i) => Some(i + 1),
            None => None,
        }
    }
}

/// Switching to the first tab of a kind selects it and reports success;
/// without a match nothing changes, and over an empty collection the
/// selection in particular stays as it was.
pub open spec fn spec_switch_to_first(v: TabsView, kind: TabKind) -> (TabsView, bool) {
    match first_match(v.tabs, kind) {
        Some(i) => (spec_switch_to(v, v.tabs[i].0), true),
        None => (v, false),
    }
}

/// The collection built by pushing each given tab in turn.
pub open spec fn spec_new(tabs: Seq<Tab>) -> TabsView
    decreases tabs.len(),
{
    if tabs.len() == 0 {
        TabsView::empty()
    } else {
        spec_push(spec_new(tabs.drop_last()), tabs.last())
    }
}

/// In a sorted collection a key occurs at one index at most, so any found
/// index is the chosen one.
proof fn lemma_key_index_unique(v: TabsView, key: usize, i: int)
    requires
        v.keys_sorted(),
        0 <= i < v.tabs.len(),
        v.tabs[i].0 == key,
    ensures
        v.has_key(key),
        v.key_index(key) == i,
{
    assert(v.has_key(key));
    let j = v.key_index(key);
    if j < i {
        assert(v.tabs[j].0 < v.tabs[i].0);
    } else if j > i {
        assert(v.tabs[i].0 < v.tabs[j].0);
    }
}

/// Scrubbing keeps only entries of the history that differ from the key.
proof fn lemma_remove_key_elems(h: Seq<usize>, key: usize)
    ensures
        forall|t: int| 0 <= t < remove_key(h, key).len() ==> remove_key(h, key)[t] != key
            && h.contains(remove_key(h, key)[t]),
    decreases h.len(),
{
    if h.len() == 0 {
    } else {
        lemma_remove_key_elems(h.drop_last(), key);
        let rk = remove_key(h, key);
        let rest = remove_key(h.drop_last(), key);
        assert(forall|t: int| 0 <= t < h.len() - 1 ==> h.drop_last()[t] == h[t]);
        assert forall|t: int| 0 <= t < rk.len() implies rk[t] != key && h.contains(rk[t]) by {
            if t < rest.len() {
                assert(rest[t] != key && h.drop_last().contains(rest[t]));
                let w = choose|w: int|
                    0 <= w < h.drop_last().len() && h.drop_last()[w] == rest[t];
                assert(h[w] == rest[t]);
            } else {
                assert(h.last() != key && rk[t] == h.last());
                assert(h[h.len() - 1] == h.last());
            }
        }
    }
}

/// Scrubbing an absent key leaves the history unchanged.
proof fn lemma_remove_key_absent(h: Seq<usize>, key: usize)
    requires
        forall|t: int| 0 <= t < h.len() ==> h[t] != key,
    ensures
        remove_key(h, key) == h,
    decreases h.len(),
{
    if h.len() == 0 {
        assert(remove_key(h, key) =~= h);
    } else {
        lemma_remove_key_absent(h.drop_last(), key);
        assert(remove_key(h, key) =~= h);
    }
}

/// Scrubbing a key other than the last keeps the history's top.
proof fn lemma_remove_key_keep_last(h: Seq<usize>, key: usize)
    requires
        h.len() > 0,
        h.last() != key,
    ensures
        remove_key(h, key).len() > 0,
        remove_key(h, key).last() == h.last(),
{
}

/// Collapsing duplicates keeps the history's top and keeps it nonempty.
proof fn lemma_dedup_last(h: Seq<usize>)
    requires
        h.len() > 0,
    ensures
        dedup_adjacent(h).len() > 0,
        dedup_adjacent(h).last() == h.last(),
{
}

/// Collapsing duplicates introduces no new entries.
proof fn lemma_dedup_elems(h: Seq<usize>)
    ensures
        forall|t: int| 0 <= t < dedup_adjacent(h).len() ==> h.contains(dedup_adjacent(h)[t]),
    decreases h.len(),
{
    if h.len() == 0 {
    } else {
        lemma_dedup_elems(h.drop_last());
        let dd = dedup_adjacent(h);
        let rest = dedup_adjacent(h.drop_last());
        assert(forall|t: int| 0 <= t < h.len() - 1 ==> h.drop_last()[t] == h[t]);
        assert forall|t: int| 0 <= t < dd.len() implies h.contains(dd[t]) by {
            if t < rest.len() {
                assert(h.drop_last().contains(rest[t]));
                let w = choose|w: int|
                    0 <= w < h.drop_last().len() && h.drop_last()[w] == rest[t];
                assert(h[w] == rest[t]);
            } else {
                assert(dd[t] == h.last());
                assert(h[h.len() - 1] == h.last());
            }
        }
    }
}

/// Removing one entry maps the remaining indices across the gap.
proof fn lemma_seq_remove_index(s: Seq<(usize, Tab)>, i: int)
    requires
        0 <= i < s.len(),
    ensures
        s.remove(i).len() == s.len() - 1,
        forall|a: int| 0 <= a < i ==> s.remove(i)[a] == s[a],
        forall|a: int| i <= a < s.len() - 1 ==> s.remove(i)[a] == s[a + 1],
{
}

/// A key other than the removed one stays live across the removal.
proof fn lemma_has_key_after_remove(s: Seq<(usize, Tab)>, i: int, x: usize)
    requires
        0 <= i < s.len(),
        x != s[i].0,
    ensures
        seq_has_key(s, x) <==> seq_has_key(s.remove(i), x),
{
    lemma_seq_remove_index(s, i);
    let s2 = s.remove(i);
    if seq_has_key(s, x) {
        let j = choose|j: int| 0 <= j < s.len() && s[j].0 == x;
        if j < i {
            assert(s2[j].0 == x);
        } else {
            assert(s2[j - 1].0 == x);
        }
    }
    if seq_has_key(s2, x) {
        let j = choose|j: int| 0 <= j < s2.len() && s2[j].0 == x;
        if j < i {
            assert(s[j].0 == x);
        } else {
            assert(s[j + 1].0 == x);
        }
    }
}

/// The tab collection.
pub struct Tabs {
    tabs: Vec<(usize, Tab)>,
    next_id: usize,
    history: Vec<usize>,
    current: Option<usize>,
}

impl View for Tabs {
    type V = TabsView;

    closed spec fn view(&self) -> TabsView {
        TabsView {
            tabs: self.tabs@,
            next_id: self.next_id,
            history: self.history@,
            current: self.current,
        }
    }
}

impl Tabs {
    /// Looks for the entry holding `key`.
    fn find_key(&self, key: usize) -> (r: Option<usize>)
        ensures
            match r {
                Some(i) => i < self@.tabs.len() && self@.tabs[i as int].0 == key,
                None => !self@.has_key(key),
            },
    {
        let mut i: usize = 0;
        while i < self.tabs.len()
            invariant
                0 <= i <= self@.tabs.len(),
                forall|j: int| 0 <= j < i ==> self@.tabs[j].0 != key,
            decreases self@.tabs.len() - i,
        {
            if self.tabs[i].0 == key {
                return Some(i);
            }
            i = i + 1;
        }
        None
    }

    /// Builds a collection holding the given tabs, pushed in order.
    pub fn new(tabs: Vec<Tab>) -> (r: Tabs)
        ensures
            r@.wf(),
            r@ == spec_new(tabs@),
    {
        let ghost orig = tabs@;
        let mut rest = tabs;
        let total = rest.len();
        let mut result = Tabs {
            tabs: Vec::new(),
            next_id: 0,
            history: Vec::new(),
            current: None,
        };
        let mut i: usize = 0;
        proof {
            assert(result@ =~= TabsView::empty());
            assert(orig.take(0) =~= Seq::<Tab>::empty());
            assert(orig.skip(0) =~= orig);
        }
        while rest.len() > 0
            invariant
                0 <= i <= orig.len(),
                orig.len() == total,
                rest@ == orig.skip(i as int),
                result@.wf(),
                result@ == spec_new(orig.take(i as int)),
                result@.next_id == i,
            decreases orig.len() - i,
    {
            let t = rest.remove(0);
            proof {
                assert(orig.skip(i as int)[0] == orig[i as int]);
                assert(orig.skip(i as int).remove(0) =~= orig.skip(i + 1));
            }
            result.push(t);
            proof {
                assert(orig.take(i + 1).drop_last() =~= orig.take(i as int));
                assert(orig.take(i + 1).last() == orig[i as int]);
            }
            i = i + 1;
        }
        proof {
            assert(orig.skip(i as int).len() == 0);
            assert(orig.take(i as int) =~= orig);
        }
        result
    }

    /// Selects `key`, which must name a live tab, and records it in the
    /// history.
    pub fn switch_to(&mut self, key: usize)
        requires
            old(self)@.wf(),
            old(self)@.has_key(key),
        ensures
            final(self)@.wf(),
            final(self)@ == spec_switch_to(old(self)@, key),
    {
        let ghost v0 = old(self)@;
        self.current = Some(key);
        self.history.push(key);
        proof {
            assert(self@ =~= spec_switch_to(v0, key));
            assert(forall|t: int| 0 <= t < v0.history.len() ==> self@.history[t] == v0.history[t]);
        }
    }

    /// Switches to the first tab of the given kind, in key order; reports
    /// whether there was one. Over an empty collection this returns false
    /// and leaves the selection unchanged.
    pub fn switch_to_first(&mut self, kind: TabKind) -> (found: bool)
        requires
            old(self)@.wf(),
        ensures
            final(self)@.wf(),
            (final(self)@, found) == spec_switch_to_first(old(self)@, kind),
    {
        let ghost v0 = self@;
        let mut i: usize = 0;
        while i < self.tabs.len()
            invariant
                0 <= i <= self@.tabs.len(),
                self@ == v0,
                old(self)@ == v0,
                v0.wf(),
                forall|j: int| 0 <= j < i ==> v0.tabs[j].1.spec_kind() != kind,
            decreases self@.tabs.len() - i,
        {
            let k = self.tabs[i].1.kind();
            if k == kind {
                let key = self.tabs[i].0;
                proof {
                    lemma_first_match_found(v0.tabs, kind, i as int);
                }
                self.switch_to(key);
                return true;
            }
            i = i + 1;
        }
        proof {
            lemma_first_match_none(v0.tabs, kind);
        }
        false
    }

    /// Whether `key` is the current selection.
    pub fn is_current(&self, key: usize) -> (r: bool)
        ensures
            r == (self@.current == Some(key)),
    {
        match self.current {
            Some(c) => c == key,
            None => false,
        }
    }

    /// The current selection's key and tab, if there is one.
    pub fn current(&self) -> (r: Option<(usize, &Tab)>)
        requires
            self@.wf(),
        ensures
            match r {
                Some(p) => self@.current == Some(p.0) && self@.has_key(p.0) && *p.1 == self@.tab_at(
                    p.0,
                ),
                None => self@.current is None,
            },
    {
        match self.current {
            Some(k) => {
                match self.find_key(k) {
                    Some(i) => {
                        proof {
                            lemma_key_index_unique(self@, k, i as int);
                        }
                        Some((k, &self.tabs[i].1))
                    },
                    None => {
                        proof {
                            assert(false);
                        }
                        None
                    },
                }
            },
            None => None,
        }
    }

    /// Inserts the tab under the next key and selects it.
    pub fn push(&mut self, tab: Tab)
        requires
            old(self)@.wf(),
            old(self)@.next_id < usize::MAX,
        ensures
            final(self)@.wf(),
            final(self)@ == spec_push(old(self)@, tab),
    {
        let ghost v0 = self@;
        let id = self.next_id;
        self.tabs.push((id, tab));
        self.history.push(id);
        self.current = Some(id);
        self.next_id = id + 1;
        proof {
            let v1 = self@;
            assert(v1 =~= spec_push(v0, tab));
            assert(forall|t: int| 0 <= t < v0.tabs.len() ==> v1.tabs[t] == v0.tabs[t]);
            assert(v1.tabs[v0.tabs.len() as int].0 == id);
            assert(v1.has_key(id));
            assert forall|t: int| 0 <= t < v1.history.len() implies v1.has_key(
                #[trigger] v1.history[t],
            ) by {
                if t < v0.history.len() {
                    assert(v0.has_key(v0.history[t]));
                    let w = choose|w: int| 0 <= w < v0.tabs.len() && v0.tabs[w].0 == v0.history[t];
                    assert(v1.tabs[w].0 == v1.history[t]);
                }
            }
        }
    }

    /// Closes `key`: scrubs it from the history, reveals the most recent
    /// remaining tab if the closed one was current, and hands back the
    /// removed tab's state. A key that is not live is a no-op.
    pub fn close(&mut self, key: usize) -> (r: Option<Tab>)
        requires
            old(self)@.wf(),
        ensures
            final(self)@.wf(),
            final(self)@ == spec_close(old(self)@, key),
            r == spec_closed_tab(old(self)@, key),
    {
        let ghost v0 = self@;
        let idx = match self.find_key(key) {
            Some(i) => i,
            None => {
                return None;
            },
        };
        proof {
            lemma_key_index_unique(v0, key, idx as int);
            lemma_seq_remove_index(v0.tabs, idx as int);
            lemma_remove_key_elems(v0.history, key);
            lemma_dedup_elems(remove_key(v0.history, key));
        }
        // Scrub the key from the history.
        let mut h: Vec<usize> = Vec::new();
        let mut j: usize = 0;
        proof {
            assert(v0.history.take(0) =~= Seq::<usize>::empty());
            assert(h@ =~= remove_key(v0.history.take(0), key));
        }
        while j < self.history.len()
            invariant
                0 <= j <= self@.history.len(),
                self@ == v0,
                h@ == remove_key(v0.history.take(j as int), key),
            decreases self@.history.len() - j,
        {
            let b = self.history[j];
            proof {
                assert(v0.history.take(j + 1).drop_last() =~= v0.history.take(j as int));
                assert(v0.history.take(j + 1).last() == v0.history[j as int]);
            }
            if b != key {
                h.push(b);
            }
            j = j + 1;
        }
        proof {
            assert(v0.history.take(v0.history.len() as int) =~= v0.history);
        }
        // Collapse adjacent duplicates.
        let mut d: Vec<usize> = Vec::new();
        let mut t: usize = 0;
        proof {
            assert(h@.take(0) =~= Seq::<usize>::empty());
            assert(d@ =~= dedup_adjacent(h@.take(0)));
        }
        while t < h.len()
            invariant
                0 <= t <= h@.len(),
                d@ == dedup_adjacent(h@.take(t as int)),
            decreases h@.len() - t,
        {
            let x = h[t];
            proof {
                assert(h@.take(t + 1).drop_last() =~= h@.take(t as int));
                assert(h@.take(t + 1).last() == h@[t as int]);
            }
            let keep = if d.len() > 0 {
                let last = d[d.len() - 1];
                last != x
            } else {
                true
            };
            if keep {
                d.push(x);
            }
            t = t + 1;
        }
        proof {
            assert(h@.take(h@.len() as int) =~= h@);
        }
        let ghost h1 = dedup_adjacent(remove_key(v0.history, key));
        proof {
            assert(d@ == h1);
        }
        self.history = d;
        // Reveal the most recent remaining tab if the closed one was current.
        let was_current = match self.current {
            Some(c) => c == key,
            None => false,
        };
        if was_current {
            if self.history.len() > 0 {
                let nk = self.history[self.history.len() - 1];
                self.current = Some(nk);
            } else {
                self.current = None;
            }
        }
        let pair = self.tabs.remove(idx);
        proof {
            let v1 = self@;
            assert(v1.tabs =~= v0.tabs.remove(idx as int));
            assert(v1 =~= spec_close(v0, key));
            // Well-formedness of the result.
            assert forall|a: int, b: int| 0 <= a < b < v1.tabs.len() implies v1.tabs[a].0
                < v1.tabs[b].0 by {
                lemma_seq_remove_index(v0.tabs, idx as int);
            }
            assert forall|a: int| 0 <= a < v1.tabs.len() implies (#[trigger] v1.tabs[a]).0
                < v1.next_id by {
                lemma_seq_remove_index(v0.tabs, idx as int);
            }
            assert forall|a: int| 0 <= a < v1.history.len() implies v1.has_key(
                #[trigger] v1.history[a],
            ) by {
                let x = v1.history[a];
                assert(h1[a] == x);
                assert(remove_key(v0.history, key).contains(x));
                assert(x != key);
                let w = choose|w: int|
                    0 <= w < remove_key(v0.history, key).len() && remove_key(v0.history, key)[w]
                        == x;
                assert(v0.history.contains(x));
                assert(v0.has_key(x));
                lemma_has_key_after_remove(v0.tabs, idx as int, x);
            }
            if v0.current == Some(key) {
                if h1.len() > 0 {
                    assert(v1.current == Some(h1.last()));
                    assert(v1.history.len() > 0 && v1.history.last() == h1.last());
                    assert(v1.has_key(h1.last()));
                }
            } else {
                match v0.current {
                    Some(c) => {
                        assert(c != key);
                        assert(v0.history.len() > 0 && v0.history.last() == c);
                        lemma_remove_key_keep_last(v0.history, key);
                        lemma_dedup_last(remove_key(v0.history, key));
                        assert(v1.history.len() > 0 && v1.history.last() == c);
                        assert(v1.has_key(c));
                    },
                    None => {
                        assert(v0.history.len() == 0);
                        assert(remove_key(v0.history, key) =~= Seq::<usize>::empty());
                        assert(h1 =~= Seq::<usize>::empty());
                    },
                }
            }
        }
        Some(pair.1)
    }

    /// Empties the collection and hands every tab back for disposal; no tab
    /// is current afterwards.
    pub fn clear(&mut self) -> (r: Vec<Tab>)
        requires
            old(self)@.wf(),
        ensures
            final(self)@.wf(),
            final(self)@ == spec_clear(old(self)@),
            r@ == old(self)@.tabs.map_values(|p: (usize, Tab)| p.1),
    {
        let ghost v0 = self@;
        self.current = None;
        self.history.clear();
        let total = self.tabs.len();
        let mut out: Vec<Tab> = Vec::new();
        let mut i: usize = 0;
        proof {
            assert(out@ =~= v0.tabs.take(0).map_values(|p: (usize, Tab)| p.1));
            assert(v0.tabs.skip(0) =~= v0.tabs);
        }
        while self.tabs.len() > 0
            invariant
                0 <= i <= v0.tabs.len(),
                v0.tabs.len() == total,
                self@.tabs == v0.tabs.skip(i as int),
                self@.history == Seq::<usize>::empty(),
                self@.current is None,
                self@.next_id == v0.next_id,
                out@ == v0.tabs.take(i as int).map_values(|p: (usize, Tab)| p.1),
            decreases self@.tabs.len(),
        {
            let p = self.tabs.remove(0);
            proof {
                assert(v0.tabs.skip(i as int)[0] == v0.tabs[i as int]);
                assert(v0.tabs.skip(i as int).remove(0) =~= v0.tabs.skip(i + 1));
            }
            out.push(p.1);
            proof {
                assert(v0.tabs.take(i + 1).drop_last() =~= v0.tabs.take(i as int));
                assert(v0.tabs.take(i + 1).map_values(|q: (usize, Tab)| q.1) =~= v0.tabs.take(
                    i as int,
                ).map_values(|q: (usize, Tab)| q.1).push(v0.tabs[i as int].1));
            }
            i = i + 1;
        }
        proof {
            assert(v0.tabs.skip(i as int).len() == 0);
            assert(v0.tabs.take(i as int) =~= v0.tabs);
            assert(final(self)@ =~= spec_clear(v0));
        }
        out
    }
}

/// Messages addressed to the collection or to one of its tabs.
pub enum Message {
    Home(usize, home::Message),
    Create(usize, create::Message),
    Document(usize, documents::Message),
    SwitchTo(usize),
    Close(usize),
}

/// What the caller must do after an update: nothing, or run a directory
/// dialog for the keyed creation tab and feed the choice back as a
/// `ChangeDirectory` message.
pub enum Action {
    Nothing,
    BrowseDirectory(usize),
}

/// What a message does to the collection and the configuration, and what it
/// asks of the caller. A message keyed to an absent tab, or to a tab of
/// another variant, changes nothing; switching guards its key the same way.
pub open spec fn spec_tabs_update(v: TabsView, c: Config, m: Message) -> (TabsView, Config, Action) {
    match m {
        Message::Home(key, msg) => if v.has_key(key) && v.tab_at(key) is Home {
            (v, home::spec_update(c, msg), Action::Nothing)
        } else {
            (v, c, Action::Nothing)
        },
        Message::Create(key, msg) => if v.has_key(key) {
            match v.tab_at(key) {
                Tab::Create(st) => {
                    let p = create::State::spec_update(st, msg);
                    let a = match p.1 {
                        create::Action::BrowseDirectory => Action::BrowseDirectory(key),
                        create::Action::Nothing => Action::Nothing,
                    };
                    (
                        TabsView {
                            tabs: v.tabs.update(v.key_index(key), (key, Tab::Create(p.0))),
                            next_id: v.next_id,
                            history: v.history,
                            current: v.current,
                        },
                        c,
                        a,
                    )
                },
                _ => (v, c, Action::Nothing),
            }
        } else {
            (v, c, Action::Nothing)
        },
        Message::Document(_, _) => (v, c, Action::Nothing),
        Message::SwitchTo(key) => if v.has_key(key) {
            (spec_switch_to(v, key), c, Action::Nothing)
        } else {
            (v, c, Action::Nothing)
        },
        Message::Close(key) => (spec_close(v, key), c, Action::Nothing),
    }
}

impl Tabs {
    /// Routes a message: tab messages to the keyed tab, switching and closing
    /// to the collection. The document registry is read, never changed; the
    /// configuration changes only under a home-tab message.
    pub fn update(&mut self, config: &mut Config, documents: &mut Documents, message: Message) -> (a:
        Action)
        requires
            old(self)@.wf(),
            old(documents).wf(),
        ensures
            final(self)@.wf(),
            (final(self)@, *final(config), a) == spec_tabs_update(
                old(self)@,
                *old(config),
                message,
            ),
            final(documents).wf(),
            final(documents)@ == old(documents)@,
    {
        let ghost v0 = self@;
        match message {
            Message::Home(key, msg) => {
                match self.find_key(key) {
                    Some(i) => {
                        proof {
                            lemma_key_index_unique(v0, key, i as int);
                        }
                        match &self.tabs[i].1 {
                            Tab::Home => {
                                home::update(config, msg);
                            },
                            _ => {},
                        }
                    },
                    None => {},
                }
                Action::Nothing
            },
            Message::Create(key, msg) => {
                match self.find_key(key) {
                    Some(i) => {
                        proof {
                            lemma_key_index_unique(v0, key, i as int);
                        }
                        let (k, tab) = self.tabs.remove(i);
                        match tab {
                            Tab::Create(mut st) => {
                                let act = st.update(msg);
                                self.tabs.insert(i, (k, Tab::Create(st)));
                                proof {
                                    lemma_seq_remove_index(v0.tabs, i as int);
                                    assert(self@.tabs =~= v0.tabs.update(
                                        i as int,
                                        (key, Tab::Create(st)),
                                    ));
                                    let v1 = self@;
                                    assert(forall|t: int| 0 <= t < v1.tabs.len()
                                        ==> (#[trigger] v1.tabs[t]).0 == v0.tabs[t].0);
                                    assert forall|x: usize| seq_has_key(v0.tabs, x)
                                        == seq_has_key(v1.tabs, x) by {
                                        if seq_has_key(v0.tabs, x) {
                                            let w = choose|w: int|
                                                0 <= w < v0.tabs.len() && v0.tabs[w].0 == x;
                                            assert(v1.tabs[w].0 == x);
                                        }
                                        if seq_has_key(v1.tabs, x) {
                                            let w = choose|w: int|
                                                0 <= w < v1.tabs.len() && v1.tabs[w].0 == x;
                                            assert(v0.tabs[w].0 == x);
                                        }
                                    }
                                }
                                match act {
                                    create::Action::BrowseDirectory => Action::BrowseDirectory(key),
                                    create::Action::Nothing => Action::Nothing,
                                }
                            },
                            other => {
                                self.tabs.insert(i, (k, other));
                                proof {
                                    lemma_seq_remove_index(v0.tabs, i as int);
                                    assert(self@.tabs =~= v0.tabs);
                                    assert(self@ =~= v0);
                                }
                                Action::Nothing
                            },
                        }
                    },
                    None => Action::Nothing,
                }
            },
            Message::Document(key, msg) => {
                // Routed to the keyed tab's document; no document message
                // changes its state yet, so the registry reads back equal.
                let ghost m0 = documents@;
                match self.find_key(key) {
                    Some(i) => {
                        match &self.tabs[i].1 {
                            Tab::Document(path) => {
                                match documents.get_mut(path) {
                                    Some(doc) => {
                                        doc.update(msg);
                                        proof {
                                            assert(documents@ =~= m0);
                                        }
                                    },
                                    None => {},
                                }
                            },
                            _ => {},
                        }
                    },
                    None => {},
                }
                Action::Nothing
            },
            Message::SwitchTo(key) => {
                match self.find_key(key) {
                    Some(_) => {
                        self.switch_to(key);
                    },
                    None => {},
                }
                Action::Nothing
            },
            Message::Close(key) => {
                let _ = self.close(key);
                Action::Nothing
            },
        }
    }
}

/// What the content area shows: the current tab's view, or the "No Open
/// Tabs" placeholder when nothing is selected.
#[derive(PartialEq, Eq, Structural, Debug)]
pub enum ViewModel {
    NoOpenTabs,
    Home(usize),
    Create(usize),
    Document(usize),
}

/// The view selected by the current key; the placeholder stands for no
/// selection, never for a stale key.
pub open spec fn spec_view_model(v: TabsView) -> ViewModel {
    match v.current {
        None => ViewModel::NoOpenTabs,
        Some(k) => if v.has_key(k) {
            match v.tab_at(k) {
                Tab::Home => ViewModel::Home(k),
                Tab::Create(_) => ViewModel::Create(k),
                Tab::Document(_) => ViewModel::Document(k),
            }
        } else {
            ViewModel::NoOpenTabs
        },
    }
}

impl Tabs {
    /// Which view to render. The tab itself is read through `current`.
    pub fn view_model(&self) -> (r: ViewModel)
        requires
            self@.wf(),
        ensures
            r == spec_view_model(self@),
    {
        match self.current {
            None => ViewModel::NoOpenTabs,
            Some(k) => {
                match self.find_key(k) {
                    Some(i) => {
                        proof {
                            lemma_key_index_unique(self@, k, i as int);
                        }
                        match &self.tabs[i].1 {
                            Tab::Home => ViewModel::Home(k),
                            Tab::Create(_) => ViewModel::Create(k),
                            Tab::Document(_) => ViewModel::Document(k),
                        }
                    },
                    None => {
                        proof {
                            assert(false);
                        }
                        ViewModel::NoOpenTabs
                    },
                }
            },
        }
    }

    /// One row per tab, in key order: the key, the label to show, and
    /// whether the tab is the current one.
    pub fn tab_bar(&self) -> (r: Vec<(usize, Vec<u8>, bool)>)
        requires
            self@.wf(),
        ensures
            r@.len() == self@.tabs.len(),
            forall|i: int| 0 <= i < r@.len() ==> (#[trigger] r@[i]).0 == self@.tabs[i].0
                && r@[i].1@ == self@.tabs[i].1.spec_label() && r@[i].2 == (self@.current == Some(
                self@.tabs[i].0,
            )),
    {
        let mut r: Vec<(usize, Vec<u8>, bool)> = Vec::new();
        let mut i: usize = 0;
        while i < self.tabs.len()
            invariant
                0 <= i <= self@.tabs.len(),
                r@.len() == i,
                forall|j: int| 0 <= j < i ==> (#[trigger] r@[j]).0 == self@.tabs[j].0
                    && r@[j].1@ == self@.tabs[j].1.spec_label() && r@[j].2 == (self@.current
                    == Some(self@.tabs[j].0)),
            decreases self@.tabs.len() - i,
        {
            let key = self.tabs[i].0;
            let label = self.tabs[i].1.label();
            let is_cur = self.is_current(key);
            r.push((key, label, is_cur));
            i = i + 1;
        }
        r
    }
}

/// Whatever tab was pushed, closing it again reveals the tab that was
/// current before the push — which still exists, since a push removes
/// nothing — and restores the tab sequence itself.
pub proof fn lemma_close_after_push_restores_current(v: TabsView, tab: Tab)
    requires
        v.wf(),
        v.next_id < usize::MAX,
    ensures
        spec_close(spec_push(v, tab), v.next_id).current == v.current,
        spec_close(spec_push(v, tab), v.next_id).tabs == v.tabs,
{
    let p = spec_push(v, tab);
    let n = v.tabs.len() as int;
    assert(p.tabs[n].0 == v.next_id);
    assert(p.keys_sorted()) by {
        assert(forall|i: int| 0 <= i < n ==> p.tabs[i] == v.tabs[i]);
    }
    lemma_key_index_unique(p, v.next_id, n);
    assert(p.tabs.remove(n) =~= v.tabs);
    // The old history never names the fresh key, so scrubbing it is a no-op.
    assert forall|t: int| 0 <= t < v.history.len() implies v.history[t] != v.next_id by {
        assert(v.has_key(v.history[t]));
        let w = choose|w: int| 0 <= w < v.tabs.len() && v.tabs[w].0 == v.history[t];
        assert(v.tabs[w].0 < v.next_id);
    }
    assert(p.history.drop_last() =~= v.history);
    assert(remove_key(p.history, v.next_id) == remove_key(v.history, v.next_id));
    lemma_remove_key_absent(v.history, v.next_id);
    let h1 = dedup_adjacent(v.history);
    match v.current {
        Some(c) => {
            lemma_dedup_last(v.history);
            assert(h1.len() > 0 && h1.last() == c);
        },
        None => {
            assert(v.history.len() == 0);
            assert(h1 =~= Seq::<usize>::empty());
        },
    }
}

/// Closing a key that no tab holds is a no-op: the collection is unchanged
/// and nothing is handed back.
pub proof fn lemma_close_absent_is_noop(v: TabsView, key: usize)
    requires
        !v.has_key(key),
    ensures
        spec_close(v, key) == v,
        spec_closed_tab(v, key) is None,
{
}

/// After a clear the collection holds no tabs and the view falls back to the
/// "No Open Tabs" placeholder, never to a stale key.
pub proof fn lemma_clear_shows_placeholder(v: TabsView)
    ensures
        spec_clear(v).tabs.len() == 0,
        spec_view_model(spec_clear(v)) == ViewModel::NoOpenTabs,
{
}

/// Over an empty collection, switching to the first tab of any kind finds
/// nothing and leaves the selection unchanged.
pub proof fn lemma_switch_to_first_empty(v: TabsView, kind: TabKind)
    requires
        v.tabs.len() == 0,
    ensures
        !spec_switch_to_first(v, kind).1,
        spec_switch_to_first(v, kind).0 == v,
        spec_switch_to_first(v, kind).0.current == v.current,
{
}

/// The index of the first matching tab really is the first: nothing before
/// it matches and it does.
proof fn lemma_first_match_found(tabs: Seq<(usize, Tab)>, kind: TabKind, i: int)
    requires
        0 <= i < tabs.len(),
        tabs[i].1.spec_kind() == kind,
        forall|j: int| 0 <= j < i ==> tabs[j].1.spec_kind() != kind,
    ensures
        first_match(tabs, kind) == Some(i),
    decreases tabs.len(),
{
    if i == 0 {
    } else {
        assert(tabs[0].1.spec_kind() != kind);
        assert(forall|a: int| 0 <= a < tabs.len() - 1 ==> tabs.skip(1)[a] == tabs[a + 1]);
        lemma_first_match_found(tabs.skip(1), kind, i - 1);
    }
}

/// Without a matching tab there is no first match.
proof fn lemma_first_match_none(tabs: Seq<(usize, Tab)>, kind: TabKind)
    requires
        forall|j: int| 0 <= j < tabs.len() ==> tabs[j].1.spec_kind() != kind,
    ensures
        first_match(tabs, kind) is None,
    decreases tabs.len(),
{
    if tabs.len() == 0 {
    } else {
        assert(forall|a: int| 0 <= a < tabs.len() - 1 ==> tabs.skip(1)[a] == tabs[a + 1]);
        lemma_first_match_none(tabs.skip(1), kind);
    }
}

} // verus!
