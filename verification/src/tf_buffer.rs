//! Coordinate frame transforms read from the TF messages of a bag.
//!
//! Each stored transform links a child frame to its parent; the buffer keeps
//! the latest transform of each child, dynamic and static ones apart. Frame
//! names are compared without their leading slashes. A lookup is planned as
//! the stored transforms to combine in order, each possibly inverted;
//! combining them (floating-point work) is left to the caller.

use vstd::prelude::*;
use crate::errors::RosBagError;
use crate::text::{str_eq, texts, text_lt, text_less, lemma_text_order};
use vstd::set_lib::{lemma_len_subset, lemma_len_union};
use crate::imu::doubles_at;
use crate::wire::{
    le_u32, read_u32, read_u64, read_string, utf8_lossy, string_fits, string_end, string_bytes,
    RosTime,
};

verus! {

/// A transform: translation (x, y, z) and rotation quaternion (x, y, z, w),
/// doubles held as their bit patterns.
#[derive(Debug, Clone, Copy)]
pub struct TfTransform {
    pub translation: [u64; 3],
    pub rotation: [u64; 4],
}

/// The bit pattern of the double 1.0.
pub open spec fn one_bits() -> u64 {
    0x3ff0_0000_0000_0000u64
}

impl TfTransform {
    /// The identity transform: no translation, the unit quaternion.
    pub fn identity() -> (r: TfTransform)
        ensures
            r.translation@ == seq![0u64, 0u64, 0u64],
            r.rotation@ == seq![0u64, 0u64, 0u64, one_bits()],
    {
        let r = TfTransform { translation: [0, 0, 0], rotation: [0, 0, 0, 0x3ff0_0000_0000_0000u64] };
        assert(r.translation@ =~= seq![0u64, 0u64, 0u64]);
        assert(r.rotation@ =~= seq![0u64, 0u64, 0u64, one_bits()]);
        r
    }
}

/// A transform with the frames it links and its time.
#[derive(Debug, Clone)]
pub struct StampedTransform {
    /// Transform
    pub transform: TfTransform,
    /// Parent frame ID
    pub parent_frame: String,
    /// Child frame ID
    pub child_frame: String,
    /// Timestamp
    pub timestamp: RosTime,
}

/// The value of a stamped transform.
pub struct StampedModel {
    pub translation: Seq<u64>,
    pub rotation: Seq<u64>,
    pub parent: Seq<char>,
    pub child: Seq<char>,
    pub timestamp: RosTime,
}

impl View for StampedTransform {
    type V = StampedModel;

    open spec fn view(&self) -> StampedModel {
        StampedModel {
            translation: self.transform.translation@,
            rotation: self.transform.rotation@,
            parent: self.parent_frame@,
            child: self.child_frame@,
            timestamp: self.timestamp,
        }
    }
}

/// A frame name without its leading slashes.
pub open spec fn trim_slashes(s: Seq<char>) -> Seq<char>
    decreases s.len(),
{
    if s.len() > 0 && s[0] == '/' {
        trim_slashes(s.drop_first())
    } else {
        s
    }
}

proof fn lemma_trim_skip(s: Seq<char>, i: int)
    requires
        0 <= i <= s.len(),
        forall|j: int| 0 <= j < i ==> s[j] == '/',
    ensures
        trim_slashes(s) == trim_slashes(s.skip(i)),
    decreases i,
{
    if i > 0 {
        assert(s.skip(1) =~= s.drop_first());
        lemma_trim_skip(s.drop_first(), i - 1);
        assert(s.drop_first().skip(i - 1) =~= s.skip(i));
    } else {
        assert(s.skip(0) =~= s);
    }
}

/// A frame name without its leading slashes (`str::trim_start_matches('/')`).
pub fn trim_frame(s: &str) -> (r: String)
    ensures
        r@ == trim_slashes(s@),
{
    let n = s.unicode_len();
    let mut i: usize = 0;
    while i < n && s.get_char(i) == '/'
        invariant
            n == s@.len(),
            i <= n,
            forall|j: int| 0 <= j < i ==> s@[j] == '/',
        decreases n - i,
    {
        i = i + 1;
    }
    proof {
        lemma_trim_skip(s@, i as int);
    }
    let r = s.substring_char(i, n).to_owned();
    assert(r@ =~= s@.skip(i as int));
    r
}

/// The keys of a sequence of stored transforms: their child frames as given.
pub open spec fn tf_keys(s: Seq<StampedTransform>) -> Seq<Seq<char>> {
    s.map_values(|e: StampedTransform| e.child_frame@)
}

/// The map from child frame to stored transform that a sequence with
/// distinct child frames stands for.
pub open spec fn tf_map(s: Seq<StampedTransform>) -> Map<Seq<char>, StampedModel> {
    Map::new(|k: Seq<char>| tf_keys(s).contains(k), |k: Seq<char>| s[tf_keys(s).index_of(k)]@)
}

proof fn lemma_tf_at(s: Seq<StampedTransform>, i: int)
    requires
        tf_keys(s).no_duplicates(),
        0 <= i < s.len(),
    ensures
        tf_map(s).dom().contains(s[i].child_frame@),
        tf_map(s)[s[i].child_frame@] == s[i]@,
{
    let ks = tf_keys(s);
    assert(ks[i] == s[i].child_frame@);
    assert(ks.contains(s[i].child_frame@));
    let j = ks.index_of(s[i].child_frame@);
    assert(ks[j] == ks[i]);
}

proof fn lemma_tf_dom(s: Seq<StampedTransform>, k: Seq<char>)
    ensures
        tf_map(s).dom().contains(k) <==> exists|i: int| 0 <= i < s.len() && s[i].child_frame@ == k,
{
    if tf_map(s).dom().contains(k) {
        let i = tf_keys(s).index_of(k);
        assert(0 <= i < s.len() && tf_keys(s)[i] == k);
    }
    if exists|i: int| 0 <= i < s.len() && s[i].child_frame@ == k {
        let i = choose|i: int| 0 <= i < s.len() && s[i].child_frame@ == k;
        assert(tf_keys(s)[i] == k);
    }
}

/// The index of the entry stored for `key`, if any.
fn find_entry(s: &Vec<StampedTransform>, key: &str) -> (r: Option<usize>)
    requires
        tf_keys(s@).no_duplicates(),
    ensures
        match r {
            Some(i) => i < s@.len() && s@[i as int].child_frame@ == key@ && tf_map(s@).dom().contains(
                key@,
            ) && tf_map(s@)[key@] == s@[i as int]@,
            None => !tf_map(s@).dom().contains(key@),
        },
{
    let mut i: usize = 0;
    while i < s.len()
        invariant
            tf_keys(s@).no_duplicates(),
            i <= s@.len(),
            forall|j: int| 0 <= j < i ==> s@[j].child_frame@ != key@,
        decreases s@.len() - i,
    {
        if str_eq(s[i].child_frame.as_str(), key) {
            proof {
                lemma_tf_at(s@, i as int);
            }
            return Some(i);
        }
        i = i + 1;
    }
    proof {
        lemma_tf_dom(s@, key@);
    }
    None
}

/// Stores `e` under its child frame, replacing what was stored there.
fn store(s: &mut Vec<StampedTransform>, e: StampedTransform)
    requires
        tf_keys(old(s)@).no_duplicates(),
    ensures
        tf_keys(final(s)@).no_duplicates(),
        tf_map(final(s)@) == tf_map(old(s)@).insert(e.child_frame@, e@),
{
    let ghost s0 = s@;
    let ghost k = e.child_frame@;
    let ghost v = e@;
    match find_entry(s, e.child_frame.as_str()) {
        Some(i) => {
            s.set(i, e);
            proof {
                assert(tf_keys(s@) =~= tf_keys(s0));
                assert forall|x: Seq<char>| #[trigger] tf_map(s@).dom().contains(x) <==> tf_map(
                    s0,
                ).insert(k, v).dom().contains(x) by {
                    lemma_tf_dom(s@, x);
                    lemma_tf_dom(s0, x);
                    if exists|j: int| 0 <= j < s0.len() && s0[j].child_frame@ == x {
                        let j = choose|j: int| 0 <= j < s0.len() && s0[j].child_frame@ == x;
                        assert(tf_keys(s@)[j] == x);
                    }
                    if exists|j: int| 0 <= j < s@.len() && s@[j].child_frame@ == x {
                        let j = choose|j: int| 0 <= j < s@.len() && s@[j].child_frame@ == x;
                        assert(tf_keys(s0)[j] == x);
                    }
                }
                assert forall|x: Seq<char>| #[trigger] tf_map(s@).dom().contains(x) implies tf_map(
                    s@,
                )[x] == tf_map(s0).insert(k, v)[x] by {
                    lemma_tf_dom(s@, x);
                    let j = choose|j: int| 0 <= j < s@.len() && s@[j].child_frame@ == x;
                    lemma_tf_at(s@, j);
                    if j != i {
                        assert(s@[j] == s0[j]);
                        assert(tf_keys(s0)[j] != tf_keys(s0)[i as int]);
                        lemma_tf_at(s0, j);
                    }
                }
                assert(tf_map(s@) =~= tf_map(s0).insert(k, v));
            }
        },
        None => {
            s.push(e);
            proof {
                assert(tf_keys(s@) =~= tf_keys(s0).push(k));
                assert forall|a: int, b: int| 0 <= a < b < tf_keys(s@).len() implies tf_keys(s@)[a]
                    != tf_keys(s@)[b] by {
                    if b == s0.len() {
                        assert(tf_keys(s0)[a] == s0[a].child_frame@);
                        lemma_tf_at(s0, a);
                    }
                }
                assert forall|x: Seq<char>| #[trigger] tf_map(s@).dom().contains(x) <==> tf_map(
                    s0,
                ).insert(k, v).dom().contains(x) by {
                    lemma_tf_dom(s@, x);
                    lemma_tf_dom(s0, x);
                    if exists|j: int| 0 <= j < s0.len() && s0[j].child_frame@ == x {
                        let j = choose|j: int| 0 <= j < s0.len() && s0[j].child_frame@ == x;
                        assert(s@[j] == s0[j]);
                    }
                    if x == k {
                        assert(s@[s0.len() as int].child_frame@ == k);
                    }
                    if exists|j: int| 0 <= j < s@.len() && s@[j].child_frame@ == x {
                        let j = choose|j: int| 0 <= j < s@.len() && s@[j].child_frame@ == x;
                        if j < s0.len() {
                            assert(s@[j] == s0[j]);
                        }
                    }
                }
                assert forall|x: Seq<char>| #[trigger] tf_map(s@).dom().contains(x) implies tf_map(
                    s@,
                )[x] == tf_map(s0).insert(k, v)[x] by {
                    lemma_tf_dom(s@, x);
                    let j = choose|j: int| 0 <= j < s@.len() && s@[j].child_frame@ == x;
                    lemma_tf_at(s@, j);
                    if j < s0.len() {
                        assert(s@[j] == s0[j]);
                        lemma_tf_at(s0, j);
                    }
                }
                assert(tf_map(s@) =~= tf_map(s0).insert(k, v));
            }
        },
    }
}

/// The transform stored for `frame` (compared without leading slashes): the
/// dynamic one, else the static one.
pub open spec fn lookup_frame(
    d: Map<Seq<char>, StampedModel>,
    st: Map<Seq<char>, StampedModel>,
    frame: Seq<char>,
) -> Option<StampedModel> {
    let k = trim_slashes(frame);
    if d.dom().contains(k) {
        Some(d[k])
    } else if st.dom().contains(k) {
        Some(st[k])
    } else {
        None
    }
}

proof fn lemma_trim_idempotent(s: Seq<char>)
    ensures
        trim_slashes(trim_slashes(s)) == trim_slashes(s),
    decreases s.len(),
{
    if s.len() > 0 && s[0] == '/' {
        lemma_trim_idempotent(s.drop_first());
    }
}

proof fn lemma_tf_dom_finite(s: Seq<StampedTransform>)
    ensures
        tf_map(s).dom() == tf_keys(s).to_set(),
        tf_map(s).dom().finite(),
{
    assert(tf_map(s).dom() =~= tf_keys(s).to_set());
}

/// The frames met following parents from the last frame of `chain`, at most
/// `fuel` more steps: it stops at a frame with no stored transform, or at
/// one whose parent is already in the chain.
pub open spec fn extend_chain(
    d: Map<Seq<char>, StampedModel>,
    st: Map<Seq<char>, StampedModel>,
    chain: Seq<Seq<char>>,
    fuel: nat,
) -> Seq<Seq<char>>
    decreases fuel,
{
    if fuel == 0 {
        chain
    } else {
        match lookup_frame(d, st, chain.last()) {
            None => chain,
            Some(m) => {
                let p = trim_slashes(m.parent);
                if chain.contains(p) {
                    chain
                } else {
                    extend_chain(d, st, chain.push(p), (fuel - 1) as nat)
                }
            },
        }
    }
}

/// The frames from `frame` towards its root, each once: following parents
/// cannot take more steps than there are stored transforms, since every
/// frame met before the last has one.
pub open spec fn chain_to_root(
    d: Map<Seq<char>, StampedModel>,
    st: Map<Seq<char>, StampedModel>,
    frame: Seq<char>,
) -> Seq<Seq<char>> {
    extend_chain(d, st, seq![trim_slashes(frame)], d.dom().len() + st.dom().len() + 1)
}

/// One step of a planned lookup: a stored transform, possibly inverted.
#[derive(Debug, Clone, Copy)]
pub struct TfStep {
    pub transform: TfTransform,
    pub invert: bool,
}

impl View for TfStep {
    type V = (Seq<u64>, Seq<u64>, bool);

    open spec fn view(&self) -> (Seq<u64>, Seq<u64>, bool) {
        (self.transform.translation@, self.transform.rotation@, self.invert)
    }
}

/// The step that uses the stored transform `m`.
pub open spec fn step_of(m: StampedModel, invert: bool) -> (Seq<u64>, Seq<u64>, bool) {
    (m.translation, m.rotation, invert)
}

/// The steps for the frames `c[n - 1]`, ..., `c[0]`, in that order: the
/// transform stored for each, where there is one, inverted as asked.
pub open spec fn chain_steps(
    d: Map<Seq<char>, StampedModel>,
    st: Map<Seq<char>, StampedModel>,
    c: Seq<Seq<char>>,
    n: nat,
    invert: bool,
) -> Seq<(Seq<u64>, Seq<u64>, bool)>
    decreases n,
{
    if n == 0 {
        Seq::empty()
    } else {
        (match lookup_frame(d, st, c[n - 1]) {
            Some(m) => seq![step_of(m, invert)],
            None => Seq::empty(),
        }) + chain_steps(d, st, c, (n - 1) as nat, invert)
    }
}

/// The first frame of `sc`, from index `i` on, that `tc` holds: its index in
/// each.
pub open spec fn first_common(sc: Seq<Seq<char>>, tc: Seq<Seq<char>>, i: nat) -> Option<(int, int)>
    decreases sc.len() - i,
{
    if i >= sc.len() {
        None
    } else if tc.contains(sc[i as int]) {
        Some((i as int, tc.index_of(sc[i as int])))
    } else {
        first_common(sc, tc, i + 1)
    }
}

/// The step for the transform stored for `child` when its parent is
/// `parent`.
pub open spec fn direct_step(
    d: Map<Seq<char>, StampedModel>,
    st: Map<Seq<char>, StampedModel>,
    child: Seq<char>,
    parent: Seq<char>,
    invert: bool,
) -> Option<(Seq<u64>, Seq<u64>, bool)> {
    match lookup_frame(d, st, child) {
        Some(m) => if trim_slashes(m.parent) == parent {
            Some(step_of(m, invert))
        } else {
            None
        },
        None => None,
    }
}

/// How a lookup ends.
pub enum TfOutcome {
    /// The steps to combine, in order; none for the identity
    Steps(Seq<(Seq<u64>, Seq<u64>, bool)>),
    /// The frames are not connected
    NotFound,
}

/// How the lookup of the transform from `source` to `target` ends: the
/// identity for the same frame; the stored transform when one frame is the
/// other's parent (inverted when the target is the child); else through the
/// first frame of the source's chain that the target's chain holds, the
/// source's transforms up to it, then the target's, inverted, down from it.
pub open spec fn tf_lookup(
    d: Map<Seq<char>, StampedModel>,
    st: Map<Seq<char>, StampedModel>,
    target: Seq<char>,
    source: Seq<char>,
) -> TfOutcome {
    let t = trim_slashes(target);
    let s = trim_slashes(source);
    if t == s {
        TfOutcome::Steps(Seq::empty())
    } else if direct_step(d, st, s, t, false) is Some {
        TfOutcome::Steps(seq![direct_step(d, st, s, t, false)->Some_0])
    } else if direct_step(d, st, t, s, true) is Some {
        TfOutcome::Steps(seq![direct_step(d, st, t, s, true)->Some_0])
    } else {
        let sc = chain_to_root(d, st, s);
        let tc = chain_to_root(d, st, t);
        match first_common(sc, tc, 0) {
            Some((i, j)) => TfOutcome::Steps(
                chain_steps(d, st, sc, i as nat, false) + chain_steps(d, st, tc, j as nat, true),
            ),
            None => TfOutcome::NotFound,
        }
    }
}

// ---------------------------------------------------------------------------
// TF messages on the wire
// ---------------------------------------------------------------------------
//
// A TF message is a `u32` count followed by that many stamped transforms,
// each: a header (`seq: u32`, stamp seconds and nanoseconds, parent frame
// string), the child frame string, the translation (3 doubles) and the
// rotation (4 doubles).

/// The stamped transform starting at `o` lies within `s`.
pub open spec fn tf_entry_fits(s: Seq<u8>, o: int) -> bool {
    &&& string_fits(s, o + 12)
    &&& string_fits(s, string_end(s, o + 12))
    &&& string_end(s, string_end(s, o + 12)) + 56 <= s.len()
}

/// Where the values of the stamped transform starting at `o` start.
pub open spec fn tf_values_at(s: Seq<u8>, o: int) -> int {
    string_end(s, string_end(s, o + 12))
}

/// The offset just past the stamped transform starting at `o`.
pub open spec fn tf_entry_end(s: Seq<u8>, o: int) -> int {
    tf_values_at(s, o) + 56
}

/// The stamped transform starting at `o`.
pub open spec fn tf_entry(s: Seq<u8>, o: int) -> StampedModel {
    let v = tf_values_at(s, o);
    StampedModel {
        translation: doubles_at(s, v, 3),
        rotation: doubles_at(s, v + 24, 4),
        parent: utf8_lossy(string_bytes(s, o + 12)),
        child: utf8_lossy(string_bytes(s, string_end(s, o + 12))),
        timestamp: RosTime { sec: le_u32(s, o + 4) as u32, nsec: le_u32(s, o + 8) as u32 },
    }
}

/// Reading up to `k` stamped transforms from `o` stays within `s`; reading
/// stops early when no more than 8 bytes are left.
pub open spec fn tf_message_fits(s: Seq<u8>, o: int, k: nat) -> bool
    decreases k,
{
    k == 0 || o + 8 >= s.len() || (tf_entry_fits(s, o) && tf_message_fits(
        s,
        tf_entry_end(s, o),
        (k - 1) as nat,
    ))
}

/// The stamped transforms read from `o`, at most `k` of them.
pub open spec fn tf_message_entries(s: Seq<u8>, o: int, k: nat) -> Seq<StampedModel>
    decreases k,
{
    if k == 0 || o + 8 >= s.len() {
        Seq::empty()
    } else {
        seq![tf_entry(s, o)] + tf_message_entries(s, tf_entry_end(s, o), (k - 1) as nat)
    }
}

/// `m` after storing each of `es` under its child frame, in order.
pub open spec fn insert_all(m: Map<Seq<char>, StampedModel>, es: Seq<StampedModel>) -> Map<
    Seq<char>,
    StampedModel,
>
    decreases es.len(),
{
    if es.len() == 0 {
        m
    } else {
        insert_all(m.insert(es[0].child, es[0]), es.drop_first())
    }
}

/// Whether `process_tf_message` reads `data` without leaving it: either it
/// is refused as too short, or each stamped transform read lies within it.
pub fn can_process_tf_message(data: &[u8]) -> (r: bool)
    ensures
        r == (data@.len() < 4 || tf_message_fits(data@, 4, le_u32(data@, 0) as nat)),
{
    let n = data.len();
    if n < 4 {
        return true;
    }
    let k = read_u32(data, 0);
    let mut offset: usize = 4;
    let mut i: u32 = 0;
    while i < k
        invariant
            n == data@.len(),
            4 <= offset <= n,
            i <= k,
            k == le_u32(data@, 0),
            tf_message_fits(data@, 4, k as nat) == tf_message_fits(
                data@,
                offset as int,
                (k - i) as nat,
            ),
        decreases k - i,
    {
        if n - offset <= 8 {
            return true;
        }
        if n - offset < 16 {
            return false;
        }
        let plen = read_u32(data, offset + 12) as usize;
        if plen > n - offset - 16 {
            return false;
        }
        let e1 = offset + 16 + plen;
        if n - e1 < 4 {
            return false;
        }
        let clen = read_u32(data, e1) as usize;
        if clen > n - e1 - 4 {
            return false;
        }
        let e2 = e1 + 4 + clen;
        if n - e2 < 56 {
            return false;
        }
        offset = e2 + 56;
        i = i + 1;
    }
    true
}

/// The elements of the first `i + 1` of `s` are those of the first `i` and
/// `s[i]`.
proof fn lemma_take_push_set(s: Seq<Seq<char>>, i: int)
    requires
        0 <= i < s.len(),
    ensures
        s.take(i + 1).to_set() == s.take(i).to_set().insert(s[i]),
{
    let t1 = s.take(i + 1);
    let t0 = s.take(i);
    assert(t1 =~= t0.push(s[i]));
    assert forall|y: Seq<char>| #[trigger] t1.to_set().contains(y) <==> t0.to_set().insert(s[i]).contains(y) by {
        if t1.contains(y) {
            let j = choose|j: int| 0 <= j < t1.len() && t1[j] == y;
            if j < i {
                assert(t0[j] == y);
            }
        }
        if t0.contains(y) {
            let j = choose|j: int| 0 <= j < t0.len() && t0[j] == y;
            assert(t1[j] == y);
        }
        if y == s[i] {
            assert(t1[i] == y);
        }
    }
    assert(t1.to_set() =~= t0.to_set().insert(s[i]));
}

/// Strictly increasing in the order of strings.
pub open spec fn text_sorted(s: Seq<Seq<char>>) -> bool {
    forall|i: int, j: int| 0 <= i < j < s.len() ==> text_lt(s[i], s[j])
}

/// Adds `x` to a strictly increasing list, unless it is there already.
fn insert_sorted(out: &mut Vec<String>, x: &str)
    requires
        text_sorted(texts(old(out)@)),
    ensures
        text_sorted(texts(final(out)@)),
        texts(final(out)@).to_set() == texts(old(out)@).to_set().insert(x@),
{
    let ghost s0 = texts(out@);
    let n = out.len();
    let mut p: usize = 0;
    while p < n && text_less(out[p].as_str(), x)
        invariant
            n == out@.len(),
            s0 == texts(out@),
            p <= n,
            forall|i: int| 0 <= i < p ==> text_lt(s0[i], x@),
        decreases n - p,
    {
        p = p + 1;
    }
    if p < n && str_eq(out[p].as_str(), x) {
        proof {
            assert(s0[p as int] == x@);
            assert(s0.to_set().contains(x@));
            assert(s0.to_set() =~= s0.to_set().insert(x@));
        }
        return;
    }
    proof {
        if p < n {
            lemma_text_order(s0[p as int], x@, s0[p as int]);
            assert(text_lt(x@, s0[p as int]));
        }
        assert forall|q: int| p <= q < n implies text_lt(x@, s0[q]) by {
            if q > p {
                lemma_text_order(x@, s0[p as int], s0[q]);
            }
        }
    }
    out.insert(p, x.to_owned());
    proof {
        let s1 = texts(out@);
        assert(s1 =~= s0.insert(p as int, x@));
        assert forall|i: int, j: int| 0 <= i < j < s1.len() implies text_lt(s1[i], s1[j]) by {
            if j < p {
                assert(s1[i] == s0[i] && s1[j] == s0[j]);
            } else if j == p {
                assert(s1[i] == s0[i]);
            } else if i < p {
                assert(s1[i] == s0[i] && s1[j] == s0[j - 1]);
                lemma_text_order(s0[i], x@, s0[j - 1]);
            } else if i == p {
                assert(s1[j] == s0[j - 1]);
            } else {
                assert(s1[i] == s0[i - 1] && s1[j] == s0[j - 1]);
            }
        }
        assert forall|y: Seq<char>| #[trigger] s1.to_set().contains(y) <==> s0.to_set().insert(
            x@,
        ).contains(y) by {
            if s1.contains(y) {
                let j = choose|j: int| 0 <= j < s1.len() && s1[j] == y;
                if j < p {
                    assert(s0[j] == y);
                } else if j > p {
                    assert(s0[j - 1] == y);
                }
            }
            if s0.contains(y) {
                let j = choose|j: int| 0 <= j < s0.len() && s0[j] == y;
                if j < p {
                    assert(s1[j] == y);
                } else {
                    assert(s1[j + 1] == y);
                }
            }
            if y == x@ {
                assert(s1[p as int] == y);
            }
        }
        assert(s1.to_set() =~= s0.to_set().insert(x@));
    }
}

/// Buffer of the transforms read from TF messages.
#[derive(Debug)]
pub struct TfBuffer {
    /// Dynamic transforms, one per child frame
    transforms: Vec<StampedTransform>,
    /// Static transforms (never cleared), one per child frame
    static_transforms: Vec<StampedTransform>,
}

impl TfBuffer {
    /// The dynamic transforms, by child frame.
    pub closed spec fn spec_dynamic(&self) -> Map<Seq<char>, StampedModel> {
        tf_map(self.transforms@)
    }

    /// The static transforms, by child frame.
    pub closed spec fn spec_static(&self) -> Map<Seq<char>, StampedModel> {
        tf_map(self.static_transforms@)
    }

    /// No child frame is stored twice in either map.
    pub closed spec fn wf(&self) -> bool {
        &&& tf_keys(self.transforms@).no_duplicates()
        &&& tf_keys(self.static_transforms@).no_duplicates()
    }

    /// Create a new, empty buffer.
    pub fn new() -> (r: TfBuffer)
        ensures
            r.wf(),
            r.spec_dynamic() == Map::<Seq<char>, StampedModel>::empty(),
            r.spec_static() == Map::<Seq<char>, StampedModel>::empty(),
    {
        let r = TfBuffer { transforms: Vec::new(), static_transforms: Vec::new() };
        assert(r.spec_dynamic() =~= Map::<Seq<char>, StampedModel>::empty());
        assert(r.spec_static() =~= Map::<Seq<char>, StampedModel>::empty());
        r
    }

    /// Add a transform, under its child frame as given.
    pub fn set_transform(&mut self, stamped: StampedTransform, is_static: bool)
        requires
            old(self).wf(),
        ensures
            final(self).wf(),
            is_static ==> final(self).spec_static() == old(self).spec_static().insert(
                stamped.child_frame@,
                stamped@,
            ) && final(self).spec_dynamic() == old(self).spec_dynamic(),
            !is_static ==> final(self).spec_dynamic() == old(self).spec_dynamic().insert(
                stamped.child_frame@,
                stamped@,
            ) && final(self).spec_static() == old(self).spec_static(),
    {
        if is_static {
            store(&mut self.static_transforms, stamped);
        } else {
            store(&mut self.transforms, stamped);
        }
    }

    /// The transform stored for a frame (compared without leading slashes):
    /// the dynamic one, else the static one.
    pub fn get_transform(&self, child_frame: &str) -> (r: Option<&StampedTransform>)
        requires
            self.wf(),
        ensures
            match r {
                Some(e) => lookup_frame(self.spec_dynamic(), self.spec_static(), child_frame@)
                    == Some(e@),
                None => lookup_frame(self.spec_dynamic(), self.spec_static(), child_frame@) is None,
            },
    {
        let key = trim_frame(child_frame);
        match find_entry(&self.transforms, key.as_str()) {
            Some(i) => Some(&self.transforms[i]),
            None => match find_entry(&self.static_transforms, key.as_str()) {
                Some(i) => Some(&self.static_transforms[i]),
                None => None,
            },
        }
    }

    /// The frames from `frame` towards its root, each once, without their
    /// leading slashes.
    pub fn get_chain_to_root(&self, frame: &str) -> (r: Vec<String>)
        requires
            self.wf(),
        ensures
            texts(r@) == chain_to_root(self.spec_dynamic(), self.spec_static(), frame@),
            texts(r@).no_duplicates(),
            r@.len() >= 1,
    {
        let ghost d = self.spec_dynamic();
        let ghost st = self.spec_static();
        let ghost keys = d.dom().union(st.dom());
        let ghost total = d.dom().len() + st.dom().len() + 1;
        proof {
            lemma_tf_dom_finite(self.transforms@);
            lemma_tf_dom_finite(self.static_transforms@);
            lemma_len_union(d.dom(), st.dom());
        }
        let start = trim_frame(frame);
        let mut chain: Vec<String> = Vec::new();
        chain.push(start.clone());
        let mut current = start;
        let ghost mut steps: nat = 0;
        assert(texts(chain@) =~= seq![trim_slashes(frame@)]);
        proof {
            lemma_trim_idempotent(frame@);
        }
        loop
            invariant
                self.wf(),
                d == self.spec_dynamic(),
                st == self.spec_static(),
                keys == d.dom().union(st.dom()),
                keys.finite(),
                keys.len() <= d.dom().len() + st.dom().len(),
                total == d.dom().len() + st.dom().len() + 1,
                chain@.len() == steps + 1,
                steps + 1 <= total,
                current@ == texts(chain@).last(),
                trim_slashes(current@) == current@,
                texts(chain@).no_duplicates(),
                forall|i: int| 0 <= i < chain@.len() - 1 ==> keys.contains(#[trigger] texts(chain@)[i]),
                extend_chain(d, st, texts(chain@), (total - steps) as nat) == chain_to_root(
                    d,
                    st,
                    frame@,
                ),
            ensures
                texts(chain@) == chain_to_root(d, st, frame@),
                texts(chain@).no_duplicates(),
                chain@.len() >= 1,
            decreases total - steps,
        {
            let ghost c = texts(chain@);
            let tf = match self.get_transform(current.as_str()) {
                Some(tf) => tf,
                None => {
                    break;
                },
            };
            let parent = trim_frame(tf.parent_frame.as_str());
            proof {
                lemma_trim_idempotent(tf.parent_frame@);
            }
            let mut seen = false;
            let mut j: usize = 0;
            while j < chain.len()
                invariant
                    j <= chain@.len(),
                    c == texts(chain@),
                    !seen ==> forall|i: int| 0 <= i < j ==> c[i] != parent@,
                    seen ==> c.contains(parent@),
                decreases chain@.len() - j,
            {
                if str_eq(chain[j].as_str(), parent.as_str()) {
                    seen = true;
                    assert(c[j as int] == parent@);
                }
                j = j + 1;
            }
            if seen {
                break;
            }
            proof {
                // Every frame of the chain has a stored transform, so the chain
                // is no longer than the stored frames.
                assert(keys.contains(current@));
                assert forall|i: int| 0 <= i < c.len() implies keys.contains(#[trigger] c[i]) by {
                    if i == c.len() - 1 {
                        assert(c[i] == current@);
                    }
                }
                assert(c.to_set().subset_of(keys));
                lemma_len_subset(c.to_set(), keys);
                c.unique_seq_to_set();
            }
            chain.push(parent.clone());
            current = parent;
            proof {
                steps = steps + 1;
                let c2 = texts(chain@);
                assert(c2 =~= c.push(current@));
                assert forall|a: int, b: int| 0 <= a < c2.len() && 0 <= b < c2.len() && a != b implies c2[a] != c2[b] by {
                    if a == c.len() {
                        assert(c2[b] == c[b]);
                    } else if b == c.len() {
                        assert(c2[a] == c[a]);
                    } else {
                        assert(c2[a] == c[a]);
                        assert(c2[b] == c[b]);
                    }
                }
                assert forall|i: int| 0 <= i < c2.len() - 1 implies keys.contains(#[trigger] c2[i]) by {
                    assert(c2[i] == c[i]);
                    if i == c.len() - 1 {
                        assert(c[i] == texts(chain@)[i]);
                    }
                }
            }
        }
        chain
    }

    /// Appends the steps for the frames `c[n - 1]`, ..., `c[0]`.
    fn push_chain_steps(&self, out: &mut Vec<TfStep>, c: &Vec<String>, n: usize, invert: bool)
        requires
            self.wf(),
            n <= c@.len(),
        ensures
            final(out)@.map_values(|x: TfStep| x@) == old(out)@.map_values(|x: TfStep| x@)
                + chain_steps(self.spec_dynamic(), self.spec_static(), texts(c@), n as nat, invert),
    {
        let ghost d = self.spec_dynamic();
        let ghost st = self.spec_static();
        let ghost cs = texts(c@);
        let ghost base = out@.map_values(|x: TfStep| x@);
        let mut k: usize = n;
        while k > 0
            invariant
                self.wf(),
                d == self.spec_dynamic(),
                st == self.spec_static(),
                cs == texts(c@),
                k <= n <= c@.len(),
                base + chain_steps(d, st, cs, n as nat, invert) == out@.map_values(|x: TfStep| x@)
                    + chain_steps(d, st, cs, k as nat, invert),
            decreases k,
        {
            k = k - 1;
            let ghost before = out@.map_values(|x: TfStep| x@);
            let ghost rest = chain_steps(d, st, cs, k as nat, invert);
            match self.get_transform(c[k].as_str()) {
                Some(tf) => {
                    let step = TfStep { transform: tf.transform, invert };
                    out.push(step);
                    assert(out@.map_values(|x: TfStep| x@) =~= before.push(step@));
                    assert(before + (seq![step@] + rest) =~= before.push(step@) + rest);
                },
                None => {
                    assert(before + (Seq::<(Seq<u64>, Seq<u64>, bool)>::empty() + rest) =~= before
                        + rest);
                },
            }
        }
        assert(out@.map_values(|x: TfStep| x@) + chain_steps(d, st, cs, 0, invert) =~= out@.map_values(
            |x: TfStep| x@,
        ));
    }

    /// Look up the transform from `source_frame` to `target_frame`, as the
    /// steps to combine in order (none for the identity). The time is a
    /// double held as its bit pattern; it is not used.
    pub fn lookup_transform(&self, target_frame: &str, source_frame: &str, time: u64) -> (r: Result<
        Vec<TfStep>,
        RosBagError,
    >)
        requires
            self.wf(),
        ensures
            match tf_lookup(self.spec_dynamic(), self.spec_static(), target_frame@, source_frame@) {
                TfOutcome::Steps(steps) => r matches Ok(v) && v@.map_values(|x: TfStep| x@) == steps,
                TfOutcome::NotFound => r matches Err(RosBagError::TransformError(a, b)) && a@
                    == source_frame@ && b@ == target_frame@,
            },
    {
        let ghost d = self.spec_dynamic();
        let ghost st = self.spec_static();
        let target = trim_frame(target_frame);
        let source = trim_frame(source_frame);
        if str_eq(target.as_str(), source.as_str()) {
            let v: Vec<TfStep> = Vec::new();
            assert(v@.map_values(|x: TfStep| x@) =~= Seq::<(Seq<u64>, Seq<u64>, bool)>::empty());
            return Ok(v);
        }
        if let Some(tf) = self.get_transform(source.as_str()) {
            let p = trim_frame(tf.parent_frame.as_str());
            if str_eq(p.as_str(), target.as_str()) {
                proof {
                    lemma_trim_idempotent(source_frame@);
                }
                let mut v: Vec<TfStep> = Vec::new();
                v.push(TfStep { transform: tf.transform, invert: false });
                assert(v@.map_values(|x: TfStep| x@) =~= seq![step_of(tf@, false)]);
                return Ok(v);
            }
        }
        proof {
            lemma_trim_idempotent(source_frame@);
            lemma_trim_idempotent(target_frame@);
        }
        if let Some(tf) = self.get_transform(target.as_str()) {
            let p = trim_frame(tf.parent_frame.as_str());
            if str_eq(p.as_str(), source.as_str()) {
                let mut v: Vec<TfStep> = Vec::new();
                v.push(TfStep { transform: tf.transform, invert: true });
                assert(v@.map_values(|x: TfStep| x@) =~= seq![step_of(tf@, true)]);
                return Ok(v);
            }
        }
        let source_chain = self.get_chain_to_root(source.as_str());
        let target_chain = self.get_chain_to_root(target.as_str());
        let ghost sc = texts(source_chain@);
        let ghost tc = texts(target_chain@);
        assert(sc == chain_to_root(d, st, trim_slashes(source_frame@)));
        assert(tc == chain_to_root(d, st, trim_slashes(target_frame@)));
        let ghost ts = trim_slashes(target_frame@);
        let ghost ss = trim_slashes(source_frame@);
        assert(ts != ss);
        assert(direct_step(d, st, ss, ts, false) is None);
        assert(direct_step(d, st, ts, ss, true) is None);
        let mut i: usize = 0;
        while i < source_chain.len()
            invariant
                self.wf(),
                d == self.spec_dynamic(),
                st == self.spec_static(),
                sc == texts(source_chain@),
                tc == texts(target_chain@),
                tc.no_duplicates(),
                i <= sc.len(),
                first_common(sc, tc, 0) == first_common(sc, tc, i as nat),
                ts == trim_slashes(target_frame@),
                ss == trim_slashes(source_frame@),
                ts != ss,
                direct_step(d, st, ss, ts, false) is None,
                direct_step(d, st, ts, ss, true) is None,
                sc == chain_to_root(d, st, ss),
                tc == chain_to_root(d, st, ts),
            decreases sc.len() - i,
        {
            let mut j: usize = 0;
            while j < target_chain.len()
                invariant
                    self.wf(),
                    d == self.spec_dynamic(),
                    st == self.spec_static(),
                    tc.no_duplicates(),
                    first_common(sc, tc, 0) == first_common(sc, tc, i as nat),
                    ts == trim_slashes(target_frame@),
                    ss == trim_slashes(source_frame@),
                    ts != ss,
                    direct_step(d, st, ss, ts, false) is None,
                    direct_step(d, st, ts, ss, true) is None,
                    sc == chain_to_root(d, st, ss),
                    tc == chain_to_root(d, st, ts),
                    tc == texts(target_chain@),
                    sc == texts(source_chain@),
                    i < sc.len(),
                    j <= tc.len(),
                    forall|q: int| 0 <= q < j ==> tc[q] != sc[i as int],
                decreases tc.len() - j,
            {
                if str_eq(source_chain[i].as_str(), target_chain[j].as_str()) {
                    proof {
                        assert(tc[j as int] == sc[i as int]);
                        assert(tc.contains(sc[i as int]));
                        let q = tc.index_of(sc[i as int]);
                        assert(tc[q] == tc[j as int]);
                    }
                    let mut steps: Vec<TfStep> = Vec::new();
                    assert(steps@.map_values(|x: TfStep| x@) =~= Seq::<
                        (Seq<u64>, Seq<u64>, bool),
                    >::empty());
                    self.push_chain_steps(&mut steps, &source_chain, i, false);
                    self.push_chain_steps(&mut steps, &target_chain, j, true);
                    assert(Seq::<(Seq<u64>, Seq<u64>, bool)>::empty() + chain_steps(
                        d,
                        st,
                        sc,
                        i as nat,
                        false,
                    ) =~= chain_steps(d, st, sc, i as nat, false));
                    return Ok(steps);
                }
                j = j + 1;
            }
            proof {
                assert(!tc.contains(sc[i as int])) by {
                    if tc.contains(sc[i as int]) {
                        let q = choose|q: int| 0 <= q < tc.len() && tc[q] == sc[i as int];
                    }
                }
            }
            i = i + 1;
        }
        Err(RosBagError::TransformError(source_frame.to_owned(), target_frame.to_owned()))
    }

    /// Read a TF message and store each of its transforms as a dynamic one.
    pub fn process_tf_message(&mut self, data: &[u8]) -> (r: Result<(), RosBagError>)
        requires
            old(self).wf(),
            data@.len() < 4 || tf_message_fits(data@, 4, le_u32(data@, 0) as nat),
        ensures
            final(self).wf(),
            data@.len() < 4 ==> {
                &&& r matches Err(RosBagError::ParseError(m)) && m@ == "TF message too short"@
                &&& final(self).spec_dynamic() == old(self).spec_dynamic()
                &&& final(self).spec_static() == old(self).spec_static()
            },
            data@.len() >= 4 ==> {
                &&& r is Ok
                &&& final(self).spec_dynamic() == insert_all(
                    old(self).spec_dynamic(),
                    tf_message_entries(data@, 4, le_u32(data@, 0) as nat),
                )
                &&& final(self).spec_static() == old(self).spec_static()
            },
    {
        let n = data.len();
        if n < 4 {
            return Err(RosBagError::ParseError("TF message too short".to_string()));
        }
        let ghost s = data@;
        let ghost d0 = self.spec_dynamic();
        let k = read_u32(data, 0);
        let mut offset: usize = 4;
        let mut i: u32 = 0;
        while i < k
            invariant
                self.wf(),
                self.spec_static() == old(self).spec_static(),
                s == data@,
                n == s.len(),
                4 <= offset <= n,
                i <= k,
                k == le_u32(s, 0),
                tf_message_fits(s, offset as int, (k - i) as nat),
                insert_all(self.spec_dynamic(), tf_message_entries(s, offset as int, (k - i) as nat))
                    == insert_all(d0, tf_message_entries(s, 4, k as nat)),
            ensures
                self.wf(),
                self.spec_static() == old(self).spec_static(),
                self.spec_dynamic() == insert_all(d0, tf_message_entries(s, 4, k as nat)),
            decreases k - i,
        {
            if n - offset <= 8 {
                assert(tf_message_entries(s, offset as int, (k - i) as nat) =~= Seq::<StampedModel>::empty());
                break;
            }
            let sec = read_u32(data, offset + 4);
            let nsec = read_u32(data, offset + 8);
            let (parent_frame, e1) = read_string(data, offset + 12);
            let (child_frame, e2) = read_string(data, e1);
            let tx = read_u64(data, e2);
            let ty = read_u64(data, e2 + 8);
            let tz = read_u64(data, e2 + 16);
            let rx = read_u64(data, e2 + 24);
            let ry = read_u64(data, e2 + 32);
            let rz = read_u64(data, e2 + 40);
            let rw = read_u64(data, e2 + 48);
            let stamped = StampedTransform {
                transform: TfTransform { translation: [tx, ty, tz], rotation: [rx, ry, rz, rw] },
                parent_frame,
                child_frame,
                timestamp: RosTime { sec, nsec },
            };
            proof {
                assert(stamped.transform.translation@ =~= doubles_at(s, e2 as int, 3));
                assert(stamped.transform.rotation@ =~= doubles_at(s, e2 + 24, 4));
                assert(stamped@ == tf_entry(s, offset as int));
                let es = tf_message_entries(s, offset as int, (k - i) as nat);
                assert(es[0] == tf_entry(s, offset as int));
                assert(es.drop_first() =~= tf_message_entries(
                    s,
                    tf_entry_end(s, offset as int),
                    (k - i - 1) as nat,
                ));
            }
            self.set_transform(stamped, false);
            offset = e2 + 56;
            i = i + 1;
        }
        Ok(())
    }

    /// All known frames, dynamic and static, each once, in increasing order.
    pub fn all_frames(&self) -> (r: Vec<String>)
        requires
            self.wf(),
        ensures
            text_sorted(texts(r@)),
            texts(r@).to_set() == self.spec_dynamic().dom().union(self.spec_static().dom()),
    {
        let mut out: Vec<String> = Vec::new();
        assert(texts(out@).to_set() =~= Set::<Seq<char>>::empty());
        let mut i: usize = 0;
        while i < self.transforms.len()
            invariant
                i <= self.transforms@.len(),
                text_sorted(texts(out@)),
                texts(out@).to_set() == tf_keys(self.transforms@).take(i as int).to_set(),
            decreases self.transforms@.len() - i,
        {
            insert_sorted(&mut out, self.transforms[i].child_frame.as_str());
            proof {
                lemma_take_push_set(tf_keys(self.transforms@), i as int);
            }
            i = i + 1;
        }
        let mut j: usize = 0;
        while j < self.static_transforms.len()
            invariant
                i == self.transforms@.len(),
                j <= self.static_transforms@.len(),
                text_sorted(texts(out@)),
                texts(out@).to_set() == tf_keys(self.transforms@).take(i as int).to_set().union(
                    tf_keys(self.static_transforms@).take(j as int).to_set(),
                ),
            decreases self.static_transforms@.len() - j,
        {
            insert_sorted(&mut out, self.static_transforms[j].child_frame.as_str());
            proof {
                let ks = tf_keys(self.static_transforms@);
                let a = tf_keys(self.transforms@).take(i as int).to_set();
                lemma_take_push_set(ks, j as int);
                assert(a.union(ks.take(j as int + 1).to_set()) =~= a.union(ks.take(j as int).to_set()).insert(ks[j as int]));
            }
            j = j + 1;
        }
        proof {
            lemma_tf_dom_finite(self.transforms@);
            lemma_tf_dom_finite(self.static_transforms@);
            assert(tf_keys(self.transforms@).take(i as int) =~= tf_keys(self.transforms@));
            assert(tf_keys(self.static_transforms@).take(j as int) =~= tf_keys(self.static_transforms@));
        }
        out
    }

    /// Clear the dynamic transforms; the static ones are kept.
    pub fn clear(&mut self)
        requires
            old(self).wf(),
        ensures
            final(self).wf(),
            final(self).spec_dynamic() == Map::<Seq<char>, StampedModel>::empty(),
            final(self).spec_static() == old(self).spec_static(),
    {
        self.transforms.clear();
        assert(self.spec_dynamic() =~= Map::<Seq<char>, StampedModel>::empty());
    }
}


/// After storing a transform from parent `m.parent` to child `m.child` (a
/// name without leading slashes), looking up the transform from the child
/// to the parent gives that transform alone, unless the two frames are the
/// same once their leading slashes are dropped.
pub proof fn law_tf_lookup_after_set(
    d: Map<Seq<char>, StampedModel>,
    st: Map<Seq<char>, StampedModel>,
    m: StampedModel,
)
    requires
        trim_slashes(m.child) == m.child,
        trim_slashes(m.parent) != m.child,
    ensures
        tf_lookup(d.insert(m.child, m), st, m.parent, m.child) == TfOutcome::Steps(
            seq![step_of(m, false)],
        ),
{
    let d2 = d.insert(m.child, m);
    assert(lookup_frame(d2, st, m.child) == Some(m));
    lemma_trim_idempotent(m.parent);
    assert(direct_step(d2, st, m.child, trim_slashes(m.parent), false) == Some(step_of(m, false)));
}

} // verus!
