//! What a recorded bag holds, worked out from its records: the topics with
//! their message types, checksums and message counts, and the time range of
//! its chunks.

use vstd::prelude::*;
use crate::assoc::{assoc_find, assoc_map, assoc_put, assoc_wf, lemma_assoc_map};
use crate::messages::TopicInfo;
use crate::text::texts;

verus! {

/// A record of a bag's chunks, as far as the summary reads it.
#[derive(Debug)]
pub enum BagRecord {
    /// A connection: its id, topic, message type and definition checksum
    Connection { id: u32, topic: String, msg_type: String, md5sum: Vec<u8> },
    /// A message sent on a connection
    MessageData { conn_id: u32 },
}

/// The lower-case hexadecimal digit of `d`.
pub open spec fn hex_digit(d: nat) -> char {
    if d < 10 {
        (('0' as u32) + d) as char
    } else {
        (('a' as u32) + d - 10) as char
    }
}

/// The checksum bytes as lower-case hexadecimal, two digits a byte.
pub open spec fn hex_text(b: Seq<u8>) -> Seq<char>
    decreases b.len(),
{
    if b.len() == 0 {
        Seq::empty()
    } else {
        hex_text(b.drop_last()) + seq![hex_digit((b.last() / 16) as nat), hex_digit((b.last() % 16) as nat)]
    }
}

/// The summary so far: the connections in the order read, each topic's
/// message type and checksum, and each topic's message count.
pub struct SummaryModel {
    pub conns: Seq<(u32, Seq<char>)>,
    pub types: Map<Seq<char>, (Seq<char>, Seq<char>)>,
    pub counts: Map<Seq<char>, nat>,
}

/// The topic of connection `id`: the last connection read with that id.
pub open spec fn conn_topic(cs: Seq<(u32, Seq<char>)>, id: u32) -> Option<Seq<char>>
    decreases cs.len(),
{
    if cs.len() == 0 {
        None
    } else if cs.last().0 == id {
        Some(cs.last().1)
    } else {
        conn_topic(cs.drop_last(), id)
    }
}

/// The summary after reading one more record: a connection is noted with its
/// topic's type and checksum; a message counts for its connection's topic,
/// if the connection is known.
pub open spec fn summary_step(m: SummaryModel, r: BagRecord) -> SummaryModel {
    match r {
        BagRecord::Connection { id, topic, msg_type, md5sum } => SummaryModel {
            conns: m.conns.push((id, topic@)),
            types: m.types.insert(topic@, (msg_type@, hex_text(md5sum@))),
            counts: m.counts,
        },
        BagRecord::MessageData { conn_id } => match conn_topic(m.conns, conn_id) {
            Some(t) => SummaryModel {
                counts: m.counts.insert(
                    t,
                    (if m.counts.dom().contains(t) {
                        m.counts[t]
                    } else {
                        0nat
                    }) + 1,
                ),
                ..m
            },
            None => m,
        },
    }
}

/// The summary after the first `n` records.
pub open spec fn summary_after(rs: Seq<BagRecord>, n: nat) -> SummaryModel
    decreases n,
{
    if n == 0 {
        SummaryModel { conns: Seq::empty(), types: Map::empty(), counts: Map::empty() }
    } else {
        summary_step(summary_after(rs, (n - 1) as nat), rs[n - 1])
    }
}

/// The lower-case hexadecimal digit of `d`.
fn hex_str(d: u8) -> (r: &'static str)
    requires
        d < 16,
    ensures
        r@ == seq![hex_digit(d as nat)],
{
    proof {
        reveal_strlit("0");
        reveal_strlit("1");
        reveal_strlit("2");
        reveal_strlit("3");
        reveal_strlit("4");
        reveal_strlit("5");
        reveal_strlit("6");
        reveal_strlit("7");
        reveal_strlit("8");
        reveal_strlit("9");
        reveal_strlit("a");
        reveal_strlit("b");
        reveal_strlit("c");
        reveal_strlit("d");
        reveal_strlit("e");
        reveal_strlit("f");
    }
    match d {
        0 => "0",
        1 => "1",
        2 => "2",
        3 => "3",
        4 => "4",
        5 => "5",
        6 => "6",
        7 => "7",
        8 => "8",
        9 => "9",
        10 => "a",
        11 => "b",
        12 => "c",
        13 => "d",
        14 => "e",
        _ => "f",
    }
}

/// The checksum bytes as lower-case hexadecimal.
pub fn hex_string(b: &Vec<u8>) -> (r: String)
    ensures
        r@ == hex_text(b@),
{
    let mut out = String::new();
    let mut i: usize = 0;
    while i < b.len()
        invariant
            i <= b@.len(),
            out@ == hex_text(b@.take(i as int)),
        decreases b@.len() - i,
    {
        out.append(hex_str(b[i] / 16));
        out.append(hex_str(b[i] % 16));
        proof {
            assert(b@.take(i as int + 1).drop_last() =~= b@.take(i as int));
        }
        i = i + 1;
    }
    assert(b@.take(i as int) =~= b@);
    out
}

/// The topic of connection `id` among the connections read.
fn find_conn(conns: &Vec<(u32, String)>, id: u32) -> (r: Option<usize>)
    ensures
        match r {
            Some(k) => k < conns@.len() && conn_topic(
                conns@.map_values(|c: (u32, String)| (c.0, c.1@)),
                id,
            ) == Some(conns@[k as int].1@),
            None => conn_topic(conns@.map_values(|c: (u32, String)| (c.0, c.1@)), id) is None,
        },
{
    let ghost cs = conns@.map_values(|c: (u32, String)| (c.0, c.1@));
    let mut k: usize = conns.len();
    assert(cs.take(k as int) =~= cs);
    while k > 0
        invariant
            k <= conns@.len(),
            cs == conns@.map_values(|c: (u32, String)| (c.0, c.1@)),
            conn_topic(cs, id) == conn_topic(cs.take(k as int), id),
        decreases k,
    {
        assert(cs.take(k as int).drop_last() =~= cs.take(k as int - 1));
        if conns[k - 1].0 == id {
            return Some(k - 1);
        }
        k = k - 1;
    }
    assert(cs.take(0) =~= Seq::<(u32, Seq<char>)>::empty());
    None
}

/// The topics of a bag read from its records: each topic named by a
/// connection, once, with the type and checksum of its last connection and
/// the number of messages sent on connections to it.
pub fn summarize_records(records: &Vec<BagRecord>) -> (r: Vec<TopicInfo>)
    ensures
        texts(r@.map_values(|t: TopicInfo| t.name)).no_duplicates(),
        texts(r@.map_values(|t: TopicInfo| t.name)).to_set() == summary_after(
            records@,
            records@.len(),
        ).types.dom(),
        forall|i: int|
            0 <= i < r@.len() ==> {
                let t = #[trigger] r@[i];
                let m = summary_after(records@, records@.len());
                &&& (t.msg_type@, t.md5sum@) == m.types[t.name@]
                &&& t.message_count == if m.counts.dom().contains(t.name@) {
                    m.counts[t.name@]
                } else {
                    0
                }
            },
{
    let mut conns: Vec<(u32, String)> = Vec::new();
    let mut types: Vec<(String, (String, String))> = Vec::new();
    let mut counts: Vec<(String, u64)> = Vec::new();
    let mut i: usize = 0;
    assert(assoc_map(types@).map_values(|p: (String, String)| (p.0@, p.1@)) =~= Map::<
        Seq<char>,
        (Seq<char>, Seq<char>),
    >::empty());
    assert(assoc_map(counts@).map_values(|c: u64| c as nat) =~= Map::<Seq<char>, nat>::empty());
    assert(conns@.map_values(|c: (u32, String)| (c.0, c.1@)) =~= Seq::<(u32, Seq<char>)>::empty());
    while i < records.len()
        invariant
            i <= records@.len(),
            assoc_wf(types@),
            assoc_wf(counts@),
            forall|j: int| 0 <= j < counts@.len() ==> #[trigger] counts@[j].1 <= i,
            conns@.map_values(|c: (u32, String)| (c.0, c.1@)) == summary_after(records@, i as nat).conns,
            assoc_map(types@).map_values(|p: (String, String)| (p.0@, p.1@)) == summary_after(
                records@,
                i as nat,
            ).types,
            assoc_map(counts@).map_values(|c: u64| c as nat) == summary_after(records@, i as nat).counts,
        decreases records@.len() - i,
    {
        let ghost m0 = summary_after(records@, i as nat);
        match &records[i] {
            BagRecord::Connection { id, topic, msg_type, md5sum } => {
                let ghost c0 = conns@;
                conns.push((*id, topic.as_str().to_owned()));
                assert(conns@.map_values(|c: (u32, String)| (c.0, c.1@)) =~= c0.map_values(
                    |c: (u32, String)| (c.0, c.1@),
                ).push((*id, topic@)));
                let hex = hex_string(md5sum);
                let ghost t0 = assoc_map(types@);
                assoc_put(&mut types, topic.as_str(), (msg_type.as_str().to_owned(), hex));
                assert(assoc_map(types@).map_values(|p: (String, String)| (p.0@, p.1@)) =~= t0.map_values(
                    |p: (String, String)| (p.0@, p.1@),
                ).insert(topic@, (msg_type@, hex_text(md5sum@))));
                proof {
                    assert forall|j: int| 0 <= j < counts@.len() implies #[trigger] counts@[j].1 <= i + 1 by {}
                }
            },
            BagRecord::MessageData { conn_id } => {
                match find_conn(&conns, *conn_id) {
                    Some(k) => {
                        let topic = conns[k].1.as_str().to_owned();
                        proof {
                            lemma_assoc_map(counts@);
                        }
                        let old_count: u64 = match assoc_find(&counts, topic.as_str()) {
                            Some(j) => counts[j].1,
                            None => 0,
                        };
                        let ghost k0 = assoc_map(counts@);
                        let ghost before = counts@;
                        assoc_put(&mut counts, topic.as_str(), old_count + 1);
                        assert(assoc_map(counts@).map_values(|c: u64| c as nat) =~= k0.map_values(
                            |c: u64| c as nat,
                        ).insert(topic@, (old_count + 1) as nat));
                        proof {
                            lemma_assoc_map(counts@);
                            lemma_assoc_map(before);
                            assert forall|j: int| 0 <= j < counts@.len() implies #[trigger] counts@[j].1
                                <= i + 1 by {
                                let key = counts@[j].0@;
                                assert(assoc_map(counts@)[key] == counts@[j].1);
                                assert(assoc_map(counts@).dom().contains(key));
                                if key != topic@ {
                                    assert(k0.dom().contains(key));
                                    let q = choose|q: int| 0 <= q < before.len() && before[q].0@ == key;
                                    assert(k0[before[q].0@] == before[q].1);
                                }
                            }
                        }
                    },
                    None => {
                        proof {
                            assert forall|j: int| 0 <= j < counts@.len() implies #[trigger] counts@[j].1 <= i + 1 by {}
                        }
                    },
                }
            },
        }
        i = i + 1;
    }
    let ghost m = summary_after(records@, records@.len());
    proof {
        lemma_assoc_map(types@);
        lemma_assoc_map(counts@);
    }
    let mut out: Vec<TopicInfo> = Vec::new();
    let mut k: usize = 0;
    while k < types.len()
        invariant
            k <= types@.len(),
            assoc_wf(types@),
            assoc_wf(counts@),
            m == summary_after(records@, records@.len()),
            assoc_map(types@).map_values(|p: (String, String)| (p.0@, p.1@)) == m.types,
            assoc_map(counts@).map_values(|c: u64| c as nat) == m.counts,
            out@.len() == k,
            forall|j: int| 0 <= j < k ==> (#[trigger] out@[j]).name@ == types@[j].0@,
            forall|j: int|
                0 <= j < k ==> {
                    let t = #[trigger] out@[j];
                    &&& (t.msg_type@, t.md5sum@) == m.types[t.name@]
                    &&& t.message_count == if m.counts.dom().contains(t.name@) {
                        m.counts[t.name@]
                    } else {
                        0
                    }
                },
        decreases types@.len() - k,
    {
        proof {
            lemma_assoc_map(types@);
            lemma_assoc_map(counts@);
        }
        let name = types[k].0.as_str();
        let count: u64 = match assoc_find(&counts, name) {
            Some(j) => counts[j].1,
            None => 0,
        };
        assert(assoc_map(types@)[types@[k as int].0@] == types@[k as int].1);
        out.push(
            TopicInfo {
                name: name.to_owned(),
                msg_type: types[k].1.0.as_str().to_owned(),
                message_count: count,
                md5sum: types[k].1.1.as_str().to_owned(),
            },
        );
        k = k + 1;
    }
    proof {
        let names = texts(out@.map_values(|t: TopicInfo| t.name));
        assert forall|a: int, b: int| 0 <= a < names.len() && 0 <= b < names.len() && a != b implies names[a]
            != names[b] by {
            assert(names[a] == types@[a].0@ && names[b] == types@[b].0@);
        }
        assert(names.to_set() =~= m.types.dom()) by {
            assert forall|x: Seq<char>| names.to_set().contains(x) == m.types.dom().contains(x) by {
                if m.types.dom().contains(x) {
                    assert(assoc_map(types@).dom().contains(x));
                    let j = choose|j: int| 0 <= j < types@.len() && types@[j].0@ == x;
                    assert(names[j] == x);
                }
                if names.to_set().contains(x) {
                    let j = choose|j: int| 0 <= j < names.len() && names[j] == x;
                    assert(names[j] == types@[j].0@);
                    assert(assoc_map(types@).dom().contains(types@[j].0@));
                }
            }
        }
    }
    out
}

/// The earliest start and latest end of a bag's chunks, given as (start, end)
/// times in nanoseconds; none for a bag without chunks.
pub fn chunk_time_range(chunks: &Vec<(u64, u64)>) -> (r: Option<(u64, u64)>)
    ensures
        chunks@.len() == 0 ==> r is None,
        chunks@.len() > 0 ==> (r matches Some((lo, hi)) && (exists|i: int|
            0 <= i < chunks@.len() && chunks@[i].0 == lo) && (exists|i: int|
            0 <= i < chunks@.len() && chunks@[i].1 == hi) && (forall|i: int|
            0 <= i < chunks@.len() ==> lo <= #[trigger] chunks@[i].0 && chunks@[i].1 <= hi)),
{
    if chunks.len() == 0 {
        return None;
    }
    let mut lo = chunks[0].0;
    let mut hi = chunks[0].1;
    let mut i: usize = 1;
    while i < chunks.len()
        invariant
            1 <= i <= chunks@.len(),
            exists|j: int| 0 <= j < chunks@.len() && chunks@[j].0 == lo,
            exists|j: int| 0 <= j < chunks@.len() && chunks@[j].1 == hi,
            forall|j: int| 0 <= j < i ==> lo <= #[trigger] chunks@[j].0 && chunks@[j].1 <= hi,
        decreases chunks@.len() - i,
    {
        if chunks[i].0 < lo {
            lo = chunks[i].0;
        }
        if chunks[i].1 > hi {
            hi = chunks[i].1;
        }
        i = i + 1;
    }
    Some((lo, hi))
}

} // verus!
