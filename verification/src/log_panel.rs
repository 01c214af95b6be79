//! The log panel's state: a bounded buffer of log lines, the nodes seen in
//! them, and the filters that pick the lines shown.

use vstd::prelude::*;
use crate::bridge::{nat_digits, record_point};
use crate::text::{
    contains_text, decimal_text, lemma_text_order, spec_to_lowercase, str_eq, text_contains,
    text_less, text_lt, texts, to_lowercase,
};

verus! {

/// A log line as the panel keeps it.
#[derive(Clone, Debug)]
pub struct LogDisplayEntry {
    /// Seconds since the start (a double-precision number, as its bits)
    pub timestamp: u64,
    /// 0=debug, 1=info, 2=warn, 3=error
    pub level: u8,
    pub level_str: String,
    pub node_id: String,
    pub message: String,
}

/// `a` comes before `b`, or they are the same.
pub open spec fn text_le(a: Seq<char>, b: Seq<char>) -> bool {
    text_lt(a, b) || a == b
}

/// In increasing order, repeats allowed.
pub open spec fn sorted_texts(s: Seq<Seq<char>>) -> bool {
    forall|i: int, j: int| 0 <= i < j < s.len() ==> text_le(s[i], s[j])
}

/// The order of strings, with equality allowed, is transitive, and mixes with
/// the strict order.
proof fn lemma_le_order(a: Seq<char>, b: Seq<char>, c: Seq<char>)
    ensures
        text_le(a, b) && text_le(b, c) ==> text_le(a, c),
        text_le(a, b) && text_lt(b, c) ==> text_lt(a, c),
        text_lt(a, b) && text_le(b, c) ==> text_lt(a, c),
        text_le(a, b) || text_lt(b, a),
        text_lt(a, b) ==> !text_le(b, a),
{
    lemma_text_order(a, b, c);
    lemma_text_order(b, a, c);
}

/// Put `x` into an ordered list after the entries that are not greater.
fn insert_in_order(v: &mut Vec<String>, x: &str)
    requires
        sorted_texts(texts(old(v)@)),
    ensures
        sorted_texts(texts(final(v)@)),
        texts(final(v)@).to_multiset() == texts(old(v)@).to_multiset().insert(x@),
{
    let ghost s0 = texts(v@);
    let n = v.len();
    let mut p: usize = 0;
    while p < n && !text_less(x, v[p].as_str())
        invariant
            n == v@.len(),
            s0 == texts(v@),
            p <= n,
            forall|i: int| 0 <= i < p ==> text_le(s0[i], x@),
        decreases n - p,
    {
        proof {
            lemma_le_order(s0[p as int], x@, x@);
        }
        p = p + 1;
    }
    proof {
        assert forall|q: int| p <= q < n implies text_lt(x@, s0[q]) by {
            if q > p {
                lemma_le_order(x@, s0[p as int], s0[q]);
            }
        }
    }
    v.insert(p, x.to_owned());
    proof {
        broadcast use vstd::seq_lib::group_to_multiset_ensures;

        let s1 = texts(v@);
        assert(s1 =~= s0.insert(p as int, x@));
        assert forall|i: int, j: int| 0 <= i < j < s1.len() implies text_le(s1[i], s1[j]) by {
            if j < p {
                assert(s1[i] == s0[i] && s1[j] == s0[j]);
            } else if j == p {
                assert(s1[i] == s0[i]);
            } else if i < p {
                assert(s1[i] == s0[i] && s1[j] == s0[j - 1]);
                lemma_le_order(s0[i], x@, s0[j - 1]);
            } else if i == p {
                assert(s1[j] == s0[j - 1]);
            } else {
                assert(s1[i] == s0[i - 1] && s1[j] == s0[j - 1]);
            }
        }
    }
}

/// The strings of `v` in increasing order, as `Vec::sort` leaves them.
fn sort_texts(v: Vec<String>) -> (r: Vec<String>)
    ensures
        sorted_texts(texts(r@)),
        texts(r@).to_multiset() == texts(v@).to_multiset(),
{
    let mut out: Vec<String> = Vec::new();
    let mut i: usize = 0;
    assert(texts(out@) =~= texts(v@.take(0)));
    while i < v.len()
        invariant
            i <= v@.len(),
            sorted_texts(texts(out@)),
            texts(out@).to_multiset() == texts(v@.take(i as int)).to_multiset(),
        decreases v@.len() - i,
    {
        insert_in_order(&mut out, v[i].as_str());
        proof {
            broadcast use vstd::seq_lib::group_to_multiset_ensures;

            assert(texts(v@.take(i as int + 1)) =~= texts(v@.take(i as int)).push(v@[i as int]@));
        }
        i = i + 1;
    }
    assert(v@.take(i as int) =~= v@);
    out
}

/// Whether one of the strings of `v` is `x`.
fn holds_text(v: &Vec<String>, x: &str) -> (r: bool)
    ensures
        r == texts(v@).contains(x@),
{
    let mut i: usize = 0;
    while i < v.len()
        invariant
            i <= v@.len(),
            forall|k: int| 0 <= k < i ==> texts(v@)[k] != x@,
        decreases v@.len() - i,
    {
        if str_eq(v[i].as_str(), x) {
            assert(texts(v@)[i as int] == x@);
            return true;
        }
        i = i + 1;
    }
    false
}

/// A line of the given level passes the level filter: 0 passes all, 1 to 4
/// pass debug, info, warn and error lines alone, any other passes all.
pub open spec fn level_matches(filter: usize, level: u8) -> bool {
    if filter == 1 {
        level == 0
    } else if filter == 2 {
        level == 1
    } else if filter == 3 {
        level == 2
    } else if filter == 4 {
        level == 3
    } else {
        true
    }
}

/// A line passes all three filters: level, node (empty passes all) and the
/// lower-case search text (empty passes all), which must occur in the
/// lower-case message or node.
pub open spec fn entry_shown(
    e: LogDisplayEntry,
    level_filter: usize,
    node_filter: Seq<char>,
    search_lower: Seq<char>,
) -> bool {
    &&& level_matches(level_filter, e.level)
    &&& (node_filter.len() == 0 || e.node_id@ == node_filter)
    &&& (search_lower.len() == 0 || contains_text(spec_to_lowercase(e.message@), search_lower)
        || contains_text(spec_to_lowercase(e.node_id@), search_lower))
}

/// The positions, in order, of the first `n` lines that pass the filters.
pub open spec fn shown_lines(
    es: Seq<LogDisplayEntry>,
    level_filter: usize,
    node_filter: Seq<char>,
    search_lower: Seq<char>,
    n: nat,
) -> Seq<usize>
    decreases n,
{
    if n == 0 {
        Seq::empty()
    } else {
        let rest = shown_lines(es, level_filter, node_filter, search_lower, (n - 1) as nat);
        if entry_shown(es[n - 1], level_filter, node_filter, search_lower) {
            rest.push((n - 1) as usize)
        } else {
            rest
        }
    }
}

/// The log panel's state.
#[derive(Debug)]
pub struct LogPanel {
    collapsed: bool,
    entries: Vec<LogDisplayEntry>,
    filtered_entries: Vec<usize>,
    level_filter: usize,
    node_filter: String,
    search_text: String,
    discovered_nodes: Vec<String>,
    max_entries: usize,
}

impl LogPanel {
    /// The lines kept, oldest first.
    pub closed spec fn spec_entries(&self) -> Seq<LogDisplayEntry> {
        self.entries@
    }

    /// The positions of the lines shown.
    pub closed spec fn spec_filtered(&self) -> Seq<usize> {
        self.filtered_entries@
    }

    /// The level filter (0 for all).
    pub closed spec fn spec_level_filter(&self) -> usize {
        self.level_filter
    }

    /// The node filter (empty for all).
    pub closed spec fn spec_node_filter(&self) -> Seq<char> {
        self.node_filter@
    }

    /// The search text.
    pub closed spec fn spec_search(&self) -> Seq<char> {
        self.search_text@
    }

    /// The nodes seen, in order.
    pub closed spec fn spec_nodes(&self) -> Seq<Seq<char>> {
        texts(self.discovered_nodes@)
    }

    /// How many lines are kept at most (0 before the first line).
    pub closed spec fn spec_max(&self) -> usize {
        self.max_entries
    }

    /// Whether the panel is collapsed.
    pub closed spec fn spec_collapsed(&self) -> bool {
        self.collapsed
    }

    /// The lines shown are those that pass the filters now in force.
    pub open spec fn filters_applied(&self) -> bool {
        self.spec_filtered() == shown_lines(
            self.spec_entries(),
            self.spec_level_filter(),
            self.spec_node_filter(),
            spec_to_lowercase(self.spec_search()),
            self.spec_entries().len(),
        )
    }

    /// A panel with nothing in it, not yet set up.
    pub fn new() -> (r: LogPanel)
        ensures
            r.spec_entries() == Seq::<LogDisplayEntry>::empty(),
            r.spec_filtered() == Seq::<usize>::empty(),
            r.spec_level_filter() == 0,
            r.spec_node_filter() == Seq::<char>::empty(),
            r.spec_search() == Seq::<char>::empty(),
            r.spec_nodes() == Seq::<Seq<char>>::empty(),
            r.spec_max() == 0,
            !r.spec_collapsed(),
            r.filters_applied(),
    {
        let r = LogPanel {
            collapsed: false,
            entries: Vec::new(),
            filtered_entries: Vec::new(),
            level_filter: 0,
            node_filter: String::new(),
            search_text: String::new(),
            discovered_nodes: Vec::new(),
            max_entries: 0,
        };
        assert(texts(r.discovered_nodes@) =~= Seq::<Seq<char>>::empty());
        r
    }

    /// Set up: room for a thousand lines, no lines, no nodes, no filters.
    pub fn init(&mut self)
        ensures
            final(self).spec_entries() == Seq::<LogDisplayEntry>::empty(),
            final(self).spec_filtered() == Seq::<usize>::empty(),
            final(self).spec_level_filter() == 0,
            final(self).spec_node_filter() == Seq::<char>::empty(),
            final(self).spec_search() == Seq::<char>::empty(),
            final(self).spec_nodes() == Seq::<Seq<char>>::empty(),
            final(self).spec_max() == 1000,
            !final(self).spec_collapsed(),
            final(self).filters_applied(),
    {
        self.max_entries = 1000;
        self.entries = Vec::new();
        self.filtered_entries = Vec::new();
        self.discovered_nodes = Vec::new();
        self.level_filter = 0;
        self.node_filter = String::new();
        self.search_text = String::new();
        self.collapsed = false;
        assert(texts(self.discovered_nodes@) =~= Seq::<Seq<char>>::empty());
    }

    /// Work out again which lines pass the filters.
    fn apply_filters(&mut self)
        ensures
            final(self).filters_applied(),
            final(self).entries == old(self).entries,
            final(self).level_filter == old(self).level_filter,
            final(self).node_filter == old(self).node_filter,
            final(self).search_text == old(self).search_text,
            final(self).discovered_nodes == old(self).discovered_nodes,
            final(self).max_entries == old(self).max_entries,
            final(self).collapsed == old(self).collapsed,
    {
        self.filtered_entries = Vec::new();
        let search_lower = to_lowercase(self.search_text.as_str());
        let ghost lf = self.level_filter;
        let ghost nf = self.node_filter@;
        let ghost sl = search_lower@;
        let mut idx: usize = 0;
        while idx < self.entries.len()
            invariant
                idx <= self.entries@.len(),
                lf == self.level_filter,
                nf == self.node_filter@,
                sl == search_lower@,
                sl == spec_to_lowercase(self.search_text@),
                self.entries == old(self).entries,
                self.level_filter == old(self).level_filter,
                self.node_filter == old(self).node_filter,
                self.search_text == old(self).search_text,
                self.discovered_nodes == old(self).discovered_nodes,
                self.max_entries == old(self).max_entries,
                self.collapsed == old(self).collapsed,
                self.filtered_entries@ == shown_lines(self.entries@, lf, nf, sl, idx as nat),
            decreases self.entries@.len() - idx,
        {
            let entry = &self.entries[idx];
            let level_match = if self.level_filter == 1 {
                entry.level == 0
            } else if self.level_filter == 2 {
                entry.level == 1
            } else if self.level_filter == 3 {
                entry.level == 2
            } else if self.level_filter == 4 {
                entry.level == 3
            } else {
                true
            };
            let node_match = self.node_filter.as_str().is_empty() || str_eq(
                entry.node_id.as_str(),
                self.node_filter.as_str(),
            );
            let search_match = search_lower.as_str().is_empty() || text_contains(
                to_lowercase(entry.message.as_str()).as_str(),
                search_lower.as_str(),
            ) || text_contains(to_lowercase(entry.node_id.as_str()).as_str(), search_lower.as_str());
            if level_match && node_match && search_match {
                self.filtered_entries.push(idx);
            }
            idx = idx + 1;
        }
    }

    /// The nodes seen are kept in order.
    pub open spec fn nodes_sorted(&self) -> bool {
        sorted_texts(self.spec_nodes())
    }

    /// Add a log line. The panel is set up first if it was not; the node is
    /// added to those seen, in order, if new; the oldest line goes when there
    /// are then more than the panel keeps; the filters are applied again.
    pub fn add_entry(&mut self, entry: LogDisplayEntry)
        requires
            old(self).nodes_sorted(),
        ensures
            final(self).spec_max() == if old(self).spec_max() == 0 {
                1000
            } else {
                old(self).spec_max()
            },
            final(self).spec_entries() == record_point(
                if old(self).spec_max() == 0 {
                    Seq::<LogDisplayEntry>::empty()
                } else {
                    old(self).spec_entries()
                },
                entry,
                final(self).spec_max() as nat,
            ),
            ({
                let nodes0 = if old(self).spec_max() == 0 {
                    Seq::<Seq<char>>::empty()
                } else {
                    old(self).spec_nodes()
                };
                if nodes0.contains(entry.node_id@) {
                    final(self).spec_nodes() == nodes0
                } else {
                    final(self).spec_nodes().to_multiset() == nodes0.to_multiset().insert(
                        entry.node_id@,
                    )
                }
            }),
            final(self).nodes_sorted(),
            old(self).spec_max() == 0 ==> {
                &&& final(self).spec_level_filter() == 0
                &&& final(self).spec_node_filter() == Seq::<char>::empty()
                &&& final(self).spec_search() == Seq::<char>::empty()
                &&& !final(self).spec_collapsed()
            },
            old(self).spec_max() != 0 ==> {
                &&& final(self).spec_level_filter() == old(self).spec_level_filter()
                &&& final(self).spec_node_filter() == old(self).spec_node_filter()
                &&& final(self).spec_search() == old(self).spec_search()
                &&& final(self).spec_collapsed() == old(self).spec_collapsed()
            },
            final(self).filters_applied(),
    {
        if self.max_entries == 0 {
            self.init();
        }
        if !holds_text(&self.discovered_nodes, entry.node_id.as_str()) {
            insert_in_order(&mut self.discovered_nodes, entry.node_id.as_str());
        }
        self.entries.push(entry);
        if self.entries.len() > self.max_entries {
            self.entries.remove(0);
        }
        proof {
            let base = if old(self).max_entries == 0 {
                Seq::<LogDisplayEntry>::empty()
            } else {
                old(self).entries@
            };
            assert(self.entries@ =~= record_point(base, entry, self.max_entries as nat));
        }
        self.apply_filters();
    }

    /// Remove every line.
    pub fn clear(&mut self)
        ensures
            final(self).spec_entries() == Seq::<LogDisplayEntry>::empty(),
            final(self).spec_filtered() == Seq::<usize>::empty(),
            final(self).spec_level_filter() == old(self).spec_level_filter(),
            final(self).spec_node_filter() == old(self).spec_node_filter(),
            final(self).spec_search() == old(self).spec_search(),
            final(self).spec_nodes() == old(self).spec_nodes(),
            final(self).spec_max() == old(self).spec_max(),
            final(self).spec_collapsed() == old(self).spec_collapsed(),
            final(self).filters_applied(),
    {
        self.entries.clear();
        self.filtered_entries.clear();
    }

    /// Replace the nodes seen, putting them in order.
    pub fn set_discovered_nodes(&mut self, nodes: Vec<String>)
        ensures
            final(self).nodes_sorted(),
            final(self).spec_nodes().to_multiset() == texts(nodes@).to_multiset(),
            final(self).spec_entries() == old(self).spec_entries(),
            final(self).spec_filtered() == old(self).spec_filtered(),
            final(self).spec_level_filter() == old(self).spec_level_filter(),
            final(self).spec_node_filter() == old(self).spec_node_filter(),
            final(self).spec_search() == old(self).spec_search(),
            final(self).spec_max() == old(self).spec_max(),
            final(self).spec_collapsed() == old(self).spec_collapsed(),
    {
        self.discovered_nodes = sort_texts(nodes);
    }

    /// Choose the level filter by its place in the level menu, and apply the
    /// filters again.
    pub fn select_level_filter(&mut self, index: usize)
        ensures
            final(self).spec_level_filter() == index,
            final(self).spec_entries() == old(self).spec_entries(),
            final(self).spec_node_filter() == old(self).spec_node_filter(),
            final(self).spec_search() == old(self).spec_search(),
            final(self).spec_nodes() == old(self).spec_nodes(),
            final(self).spec_max() == old(self).spec_max(),
            final(self).spec_collapsed() == old(self).spec_collapsed(),
            final(self).filters_applied(),
    {
        self.level_filter = index;
        self.apply_filters();
    }

    /// Choose the node filter by its place in the node menu: the first place
    /// is all nodes, the others the nodes seen in order (past the end, all
    /// nodes); then apply the filters again.
    pub fn select_node_filter(&mut self, index: usize)
        ensures
            final(self).spec_node_filter() == if index == 0 || index - 1 >= old(
                self,
            ).spec_nodes().len() {
                Seq::<char>::empty()
            } else {
                old(self).spec_nodes()[index - 1]
            },
            final(self).spec_entries() == old(self).spec_entries(),
            final(self).spec_level_filter() == old(self).spec_level_filter(),
            final(self).spec_search() == old(self).spec_search(),
            final(self).spec_nodes() == old(self).spec_nodes(),
            final(self).spec_max() == old(self).spec_max(),
            final(self).spec_collapsed() == old(self).spec_collapsed(),
            final(self).filters_applied(),
    {
        if index == 0 || index - 1 >= self.discovered_nodes.len() {
            self.node_filter = String::new();
        } else {
            self.node_filter = self.discovered_nodes[index - 1].as_str().to_owned();
        }
        self.apply_filters();
    }

    /// The number of lines kept.
    pub fn entry_count(&self) -> (r: usize)
        ensures
            r == self.spec_entries().len(),
    {
        self.entries.len()
    }

    /// The number of lines shown.
    pub fn filtered_count(&self) -> (r: usize)
        ensures
            r == self.spec_filtered().len(),
    {
        self.filtered_entries.len()
    }

    /// The lines kept, oldest first.
    pub fn entries(&self) -> (r: &[LogDisplayEntry])
        ensures
            r@ == self.spec_entries(),
    {
        self.entries.as_slice()
    }

    /// The positions of the lines shown, oldest first.
    pub fn filtered_entries(&self) -> (r: &[usize])
        ensures
            r@ == self.spec_filtered(),
    {
        self.filtered_entries.as_slice()
    }

    /// The nodes seen, in order.
    pub fn discovered_nodes(&self) -> (r: &[String])
        ensures
            texts(r@) == self.spec_nodes(),
    {
        self.discovered_nodes.as_slice()
    }

    /// The positions of the lines to draw: the shown ones, newest first, at
    /// most a hundred.
    pub fn newest_shown(&self) -> (r: Vec<usize>)
        ensures
            r@.len() == if self.spec_filtered().len() < 100 {
                self.spec_filtered().len()
            } else {
                100
            },
            forall|k: int|
                0 <= k < r@.len() ==> r@[k] == self.spec_filtered()[self.spec_filtered().len() - 1
                    - k],
    {
        let n = self.filtered_entries.len();
        let mut out: Vec<usize> = Vec::new();
        let mut k: usize = 0;
        while k < n && k < 100
            invariant
                n == self.filtered_entries@.len(),
                k <= n,
                k <= 100,
                out@.len() == k,
                forall|j: int|
                    0 <= j < k ==> out@[j] == self.filtered_entries@[n - 1 - j],
            decreases n - k,
        {
            out.push(self.filtered_entries[n - 1 - k]);
            k = k + 1;
        }
        out
    }

    /// The count shown in the header: "N entries" when all lines are shown,
    /// else "F/N entries".
    pub fn entry_count_text(&self) -> (r: String)
        ensures
            r@ == if self.spec_filtered().len() == self.spec_entries().len() {
                nat_digits(self.spec_entries().len()) + " entries"@
            } else {
                nat_digits(self.spec_filtered().len()) + "/"@ + nat_digits(
                    self.spec_entries().len(),
                ) + " entries"@
            },
    {
        let mut t = if self.filtered_entries.len() == self.entries.len() {
            decimal_text(self.entries.len() as u64)
        } else {
            let mut u = decimal_text(self.filtered_entries.len() as u64);
            u.append("/");
            u.append(decimal_text(self.entries.len() as u64).as_str());
            u
        };
        t.append(" entries");
        t
    }

    /// The entries of the node menu: all nodes, then the nodes seen.
    pub fn node_filter_labels(&self) -> (r: Vec<String>)
        ensures
            texts(r@) == seq!["All Nodes"@] + self.spec_nodes(),
    {
        let mut labels: Vec<String> = Vec::new();
        labels.push("All Nodes".to_owned());
        let mut i: usize = 0;
        while i < self.discovered_nodes.len()
            invariant
                i <= self.discovered_nodes@.len(),
                texts(labels@) == seq!["All Nodes"@] + texts(self.discovered_nodes@).take(i as int),
            decreases self.discovered_nodes@.len() - i,
        {
            let ghost before = texts(labels@);
            labels.push(self.discovered_nodes[i].as_str().to_owned());
            assert(texts(labels@) =~= before.push(self.discovered_nodes@[i as int]@));
            i = i + 1;
            assert(texts(labels@) =~= seq!["All Nodes"@] + texts(self.discovered_nodes@).take(
                i as int,
            ));
        }
        assert(texts(self.discovered_nodes@).take(i as int) =~= texts(self.discovered_nodes@));
        labels
    }

    /// Whether the panel is collapsed.
    pub fn is_collapsed(&self) -> (r: bool)
        ensures
            r == self.spec_collapsed(),
    {
        self.collapsed
    }

    /// Collapse or expand the panel.
    pub fn set_collapsed(&mut self, collapsed: bool)
        ensures
            final(self).spec_collapsed() == collapsed,
            final(self).spec_entries() == old(self).spec_entries(),
            final(self).spec_filtered() == old(self).spec_filtered(),
            final(self).spec_level_filter() == old(self).spec_level_filter(),
            final(self).spec_node_filter() == old(self).spec_node_filter(),
            final(self).spec_search() == old(self).spec_search(),
            final(self).spec_nodes() == old(self).spec_nodes(),
            final(self).spec_max() == old(self).spec_max(),
    {
        self.collapsed = collapsed;
    }
}


/// The lines shown are exactly those that pass the filters, each once, in
/// the order in which they came.
pub proof fn law_shown_lines_exact(
    es: Seq<LogDisplayEntry>,
    level_filter: usize,
    node_filter: Seq<char>,
    search_lower: Seq<char>,
    n: nat,
)
    requires
        n <= es.len(),
        n <= usize::MAX + 1,
    ensures
        ({
            let shown = shown_lines(es, level_filter, node_filter, search_lower, n);
            &&& forall|k: int|
                0 <= k < shown.len() ==> shown[k] < n && entry_shown(
                    es[shown[k] as int],
                    level_filter,
                    node_filter,
                    search_lower,
                )
            &&& forall|a: int, b: int| 0 <= a < b < shown.len() ==> shown[a] < shown[b]
            &&& forall|i: int|
                0 <= i < n && entry_shown(es[i], level_filter, node_filter, search_lower)
                    ==> shown.contains(i as usize)
        }),
    decreases n,
{
    if n > 0 {
        law_shown_lines_exact(es, level_filter, node_filter, search_lower, (n - 1) as nat);
        let rest = shown_lines(es, level_filter, node_filter, search_lower, (n - 1) as nat);
        let shown = shown_lines(es, level_filter, node_filter, search_lower, n);
        if entry_shown(es[n - 1], level_filter, node_filter, search_lower) {
            assert(shown == rest.push((n - 1) as usize));
            assert forall|i: int|
                0 <= i < n && entry_shown(
                    es[i],
                    level_filter,
                    node_filter,
                    search_lower,
                ) implies shown.contains(i as usize) by {
                if i < n - 1 {
                    let k = choose|k: int| 0 <= k < rest.len() && rest[k] == i as usize;
                    assert(shown[k] == i as usize);
                } else {
                    assert(shown[rest.len() as int] == i as usize);
                }
            }
        }
    }
}

} // verus!
