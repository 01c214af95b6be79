//! Small text helpers shared by the parsers.

use vstd::prelude::*;
use crate::protocol::all_ascii;
use crate::bridge::{digit_char, nat_digits};

verus! {

/// What `str::to_lowercase` gives for a string with the characters `s`.
pub uninterp spec fn spec_to_lowercase(s: Seq<char>) -> Seq<char>;

/// The lower-case form of an ASCII letter; other characters are kept.
pub open spec fn ascii_lower(c: char) -> char {
    if 'A' <= c && c <= 'Z' {
        ((c as u32) + 32) as char
    } else {
        c
    }
}

/// `str::to_lowercase`: the Unicode lower-case form of `s`, named by
/// `spec_to_lowercase`. For text made of ASCII characters alone the standard
/// library documents the ASCII mapping, which is stated; nothing is claimed of
/// other characters.
#[verifier::external_body]
pub(crate) fn to_lowercase(s: &str) -> (r: String)
    ensures
        r@ == spec_to_lowercase(s@),
        all_ascii(s@) ==> r@ == s@.map_values(|c: char| ascii_lower(c)),
{
    s.to_lowercase()
}

/// Whether two strings hold the same characters.
pub fn str_eq(a: &str, b: &str) -> (r: bool)
    ensures
        r == (a@ == b@),
{
    a.to_owned() == b.to_owned()
}

/// Whether `s` begins with `prefix`.
pub fn starts_with(s: &str, prefix: &str) -> (r: bool)
    ensures
        r == (prefix@.len() <= s@.len() && s@.subrange(0, prefix@.len() as int) == prefix@),
{
    let n = s.unicode_len();
    let k = prefix.unicode_len();
    if k > n {
        return false;
    }
    let mut i: usize = 0;
    while i < k
        invariant
            k == prefix@.len(),
            n == s@.len(),
            k <= n,
            i <= k,
            forall|j: int| 0 <= j < i ==> s@[j] == prefix@[j],
        decreases k - i,
    {
        if s.get_char(i) != prefix.get_char(i) {
            assert(s@.subrange(0, k as int)[i as int] != prefix@[i as int]);
            return false;
        }
        i = i + 1;
    }
    assert(s@.subrange(0, k as int) =~= prefix@);
    true
}


/// The pieces of the first `n` characters of `s` between occurrences of
/// `sep`, as `str::split` gives them: one more piece than there are
/// separators, empty pieces included.
pub open spec fn split_prefix(s: Seq<char>, sep: char, n: nat) -> Seq<Seq<char>>
    decreases n,
{
    if n == 0 {
        seq![Seq::<char>::empty()]
    } else {
        let prev = split_prefix(s, sep, (n - 1) as nat);
        if s[n - 1] == sep {
            prev.push(Seq::<char>::empty())
        } else {
            prev.update(prev.len() - 1, prev.last().push(s[n - 1]))
        }
    }
}

/// The pieces of `s` between occurrences of `sep`.
pub open spec fn split_on(s: Seq<char>, sep: char) -> Seq<Seq<char>> {
    split_prefix(s, sep, s.len())
}

/// The texts of a sequence of strings.
pub open spec fn texts(v: Seq<String>) -> Seq<Seq<char>> {
    v.map_values(|x: String| x@)
}

/// There is always at least one piece.
pub proof fn lemma_split_prefix_len(s: Seq<char>, sep: char, n: nat)
    ensures
        split_prefix(s, sep, n).len() >= 1,
    decreases n,
{
    if n > 0 {
        lemma_split_prefix_len(s, sep, (n - 1) as nat);
    }
}

/// Splits `s` at each occurrence of `sep`.
pub fn split_chars(s: &str, sep: char) -> (r: Vec<String>)
    ensures
        texts(r@) == split_on(s@, sep),
        r@.len() >= 1,
{
    let n = s.unicode_len();
    let mut out: Vec<String> = Vec::new();
    let mut start: usize = 0;
    let mut i: usize = 0;
    assert(s@.subrange(0, 0) =~= Seq::<char>::empty());
    assert(texts(out@) =~= Seq::<Seq<char>>::empty());
    assert(texts(out@).push(s@.subrange(0, 0)) =~= split_prefix(s@, sep, 0));
    while i < n
        invariant
            n == s@.len(),
            start <= i <= n,
            split_prefix(s@, sep, i as nat) == texts(out@).push(s@.subrange(start as int, i as int)),
        decreases n - i,
    {
        let ghost prev = split_prefix(s@, sep, i as nat);
        if s.get_char(i) == sep {
            let piece = s.substring_char(start, i).to_owned();
            out.push(piece);
            assert(texts(out@) =~= prev);
            assert(s@.subrange(i as int + 1, i as int + 1) =~= Seq::<char>::empty());
            start = i + 1;
        } else {
            assert(s@.subrange(start as int, i as int + 1) =~= s@.subrange(start as int, i as int).push(s@[i as int]));
            assert(split_prefix(s@, sep, (i + 1) as nat) =~= texts(out@).push(s@.subrange(start as int, i as int + 1)));
        }
        i = i + 1;
    }
    let last = s.substring_char(start, n).to_owned();
    out.push(last);
    assert(texts(out@) =~= split_prefix(s@, sep, n as nat));
    out
}


/// `k` is where `a` and `b` part: they agree before it, and there one ends or
/// they hold different characters.
pub open spec fn parts_at(a: Seq<char>, b: Seq<char>, k: int) -> bool {
    &&& 0 <= k <= a.len()
    &&& k <= b.len()
    &&& forall|j: int| 0 <= j < k ==> a[j] == b[j]
    &&& (k == a.len() || k == b.len() || a[k] != b[k])
}

/// `a` comes before `b` in the order of strings: where they part, `a` has
/// ended and `b` has not, or `a` has the smaller character.
pub open spec fn text_lt(a: Seq<char>, b: Seq<char>) -> bool {
    exists|k: int|
        #![trigger parts_at(a, b, k)]
        parts_at(a, b, k) && ((k == a.len() && k < b.len()) || (k < a.len() && k < b.len() && (
        a[k] as int) < (b[k] as int)))
}

/// Two strings part at one place only.
proof fn lemma_parts_unique(a: Seq<char>, b: Seq<char>, k1: int, k2: int)
    requires
        parts_at(a, b, k1),
        parts_at(a, b, k2),
    ensures
        k1 == k2,
{
    if k1 < k2 {
        assert(a[k1] == b[k1]);
    } else if k2 < k1 {
        assert(a[k2] == b[k2]);
    }
}

/// Where two strings that agree before `i` part.
proof fn lemma_parts_from(a: Seq<char>, b: Seq<char>, i: int) -> (k: int)
    requires
        0 <= i <= a.len(),
        i <= b.len(),
        forall|j: int| 0 <= j < i ==> a[j] == b[j],
    ensures
        parts_at(a, b, k),
    decreases a.len() - i,
{
    if i == a.len() || i == b.len() || a[i] != b[i] {
        i
    } else {
        lemma_parts_from(a, b, i + 1)
    }
}

/// Where two strings part.
proof fn lemma_parts_exist(a: Seq<char>, b: Seq<char>) -> (k: int)
    ensures
        parts_at(a, b, k),
{
    lemma_parts_from(a, b, 0)
}

/// The order of strings is a strict total order.
pub proof fn lemma_text_order(a: Seq<char>, b: Seq<char>, c: Seq<char>)
    ensures
        !text_lt(a, a),
        text_lt(a, b) ==> !text_lt(b, a),
        a != b ==> text_lt(a, b) || text_lt(b, a),
        text_lt(a, b) && text_lt(b, c) ==> text_lt(a, c),
{
    let kab = lemma_parts_exist(a, b);
    let kba = lemma_parts_exist(b, a);
    let kbc = lemma_parts_exist(b, c);
    let kac = lemma_parts_exist(a, c);
    let kaa = lemma_parts_exist(a, a);
    assert(kaa == a.len()) by {
        if kaa < a.len() {
            assert(a[kaa] != a[kaa]);
        }
    }
    assert forall|k: int| parts_at(a, a, k) implies k == kaa by {
        lemma_parts_unique(a, a, k, kaa);
    }
    assert(kab == kba);
    assert forall|k: int| parts_at(a, b, k) implies k == kab by {
        lemma_parts_unique(a, b, k, kab);
    }
    assert forall|k: int| parts_at(b, a, k) implies k == kba by {
        lemma_parts_unique(b, a, k, kba);
    }
    assert forall|k: int| parts_at(b, c, k) implies k == kbc by {
        lemma_parts_unique(b, c, k, kbc);
    }
    assert forall|k: int| parts_at(a, c, k) implies k == kac by {
        lemma_parts_unique(a, c, k, kac);
    }
    if a != b {
        if kab == a.len() && kab == b.len() {
            assert(a =~= b);
        }
        if kab < a.len() && kab < b.len() {
            assert(a[kab] != b[kab]);
            assert((a[kab] as int) != (b[kab] as int));
            assert(parts_at(a, b, kab));
            assert(parts_at(b, a, kab));
        } else if kab == a.len() {
            assert(parts_at(a, b, kab));
        } else {
            assert(parts_at(b, a, kab));
        }
    }
    if text_lt(a, b) && text_lt(b, c) {
        if kab < kbc {
            assert forall|j: int| 0 <= j < kab implies a[j] == c[j] by {
                assert(a[j] == b[j]);
                assert(b[j] == c[j]);
            }
            if kab < a.len() {
                assert(b[kab] == c[kab]);
            }
            assert(parts_at(a, c, kab));
        } else if kbc < kab {
            assert forall|j: int| 0 <= j < kbc implies a[j] == c[j] by {
                assert(a[j] == b[j]);
                assert(b[j] == c[j]);
            }
            assert(a[kbc] == b[kbc]);
            assert(parts_at(a, c, kbc));
        } else {
            assert forall|j: int| 0 <= j < kab implies a[j] == c[j] by {
                assert(a[j] == b[j]);
                assert(b[j] == c[j]);
            }
            assert(parts_at(a, c, kab));
        }
    }
}

/// Whether `a` comes before `b` in the order of strings.
pub fn text_less(a: &str, b: &str) -> (r: bool)
    ensures
        r == text_lt(a@, b@),
{
    let n = a.unicode_len();
    let m = b.unicode_len();
    let mut k: usize = 0;
    while k < n && k < m && a.get_char(k) == b.get_char(k)
        invariant
            n == a@.len(),
            m == b@.len(),
            k <= n,
            k <= m,
            forall|j: int| 0 <= j < k ==> a@[j] == b@[j],
        decreases n - k,
    {
        k = k + 1;
    }
    assert(parts_at(a@, b@, k as int));
    proof {
        assert forall|j: int| parts_at(a@, b@, j) implies j == k by {
            lemma_parts_unique(a@, b@, j, k as int);
        }
    }
    if k == n {
        k < m
    } else if k == m {
        false
    } else {
        (a.get_char(k) as u32) < (b.get_char(k) as u32)
    }
}


/// The characters of `s`, one by one.
pub fn chars_of(s: &str) -> (r: Vec<char>)
    ensures
        r@ == s@,
{
    let n = s.unicode_len();
    let mut out: Vec<char> = Vec::new();
    let mut i: usize = 0;
    while i < n
        invariant
            n == s@.len(),
            i <= n,
            out@ == s@.take(i as int),
        decreases n - i,
    {
        out.push(s.get_char(i));
        i = i + 1;
        assert(out@ =~= s@.take(i as int));
    }
    assert(out@ =~= s@);
    out
}

/// `needle` occurs in `hay`, as `str::contains` finds a string in another;
/// the empty string occurs everywhere.
pub open spec fn contains_text(hay: Seq<char>, needle: Seq<char>) -> bool {
    exists|i: int|
        0 <= i && i + needle.len() <= hay.len() && #[trigger] hay.subrange(i, i + needle.len())
            == needle
}

/// Whether `needle` occurs in `hay`.
pub fn text_contains(hay: &str, needle: &str) -> (r: bool)
    ensures
        r == contains_text(hay@, needle@),
{
    let h = chars_of(hay);
    let nd = chars_of(needle);
    let n = h.len();
    let m = nd.len();
    if m > n {
        return false;
    }
    let mut i: usize = 0;
    while i <= n - m
        invariant
            h@ == hay@,
            nd@ == needle@,
            n == h@.len(),
            m == nd@.len(),
            m <= n,
            i <= n - m + 1,
            forall|k: int| 0 <= k < i ==> #[trigger] hay@.subrange(k, k + needle@.len()) != needle@,
        decreases n - m + 1 - i,
    {
        let mut j: usize = 0;
        while j < m && h[i + j] == nd[j]
            invariant
                h@ == hay@,
                nd@ == needle@,
                n == h@.len(),
                m == nd@.len(),
                i + m <= n,
                j <= m,
                forall|t: int| 0 <= t < j ==> hay@[i + t] == needle@[t],
            decreases m - j,
        {
            j = j + 1;
        }
        if j == m {
            assert(hay@.subrange(i as int, i + m) =~= needle@);
            return true;
        }
        assert(hay@.subrange(i as int, i + m)[j as int] != needle@[j as int]);
        i = i + 1;
    }
    false
}

/// The text of one decimal digit.
fn digit_str(d: u8) -> (r: &'static str)
    requires
        d < 10,
    ensures
        r@ == seq![digit_char(d as nat)],
{
    proof {
        reveal_strlit("0");
        reveal_strlit("1");
        reveal_strlit("2");
        reveal_strlit("3");
        reveal_strlit("4");
        reveal_strlit("5");
        reveal_strlit("6");
        reveal_strlit("7");
        reveal_strlit("8");
        reveal_strlit("9");
    }
    match d {
        0 => "0",
        1 => "1",
        2 => "2",
        3 => "3",
        4 => "4",
        5 => "5",
        6 => "6",
        7 => "7",
        8 => "8",
        _ => "9",
    }
}

/// The decimal text of `n`, as `usize::to_string` writes it.
pub fn decimal_text(n: u64) -> (r: String)
    ensures
        r@ == nat_digits(n as nat),
{
    let mut rev: Vec<u8> = Vec::new();
    let mut m: u64 = n;
    while m >= 10
        invariant
            forall|k: int| 0 <= k < rev@.len() ==> rev@[k] < 10,
            nat_digits(n as nat) == nat_digits(m as nat) + Seq::new(
                rev@.len(),
                |k: int| digit_char(rev@[rev@.len() - 1 - k] as nat),
            ),
        decreases m,
    {
        let ghost before = rev@;
        let d = (m % 10) as u8;
        rev.push(d);
        proof {
            let tail_old = Seq::new(
                before.len(),
                |k: int| digit_char(before[before.len() - 1 - k] as nat),
            );
            let tail_new = Seq::new(
                rev@.len(),
                |k: int| digit_char(rev@[rev@.len() - 1 - k] as nat),
            );
            assert(tail_new =~= seq![digit_char((m % 10) as nat)] + tail_old);
            assert(nat_digits(m as nat) == nat_digits((m / 10) as nat) + seq![
                digit_char((m % 10) as nat),
            ]);
            assert(nat_digits(m as nat) + tail_old =~= nat_digits((m / 10) as nat) + tail_new);
        }
        m = m / 10;
    }
    let mut text = digit_str(m as u8).to_owned();
    let ghost tail = Seq::new(rev@.len(), |k: int| digit_char(rev@[rev@.len() - 1 - k] as nat));
    let mut i: usize = rev.len();
    while i > 0
        invariant
            i <= rev@.len(),
            forall|k: int| 0 <= k < rev@.len() ==> rev@[k] < 10,
            tail == Seq::new(rev@.len(), |k: int| digit_char(rev@[rev@.len() - 1 - k] as nat)),
            text@ == nat_digits(m as nat) + tail.take(rev@.len() - i),
        decreases i,
    {
        i = i - 1;
        text.append(digit_str(rev[i]));
        assert(tail.take(rev@.len() - i) =~= tail.take(rev@.len() - i - 1).push(
            digit_char(rev@[i as int] as nat),
        ));
    }
    assert(tail.take(rev@.len() as int) =~= tail);
    text
}


/// `s` with every space turned into an underscore.
pub open spec fn spaces_to_underscores(s: Seq<char>) -> Seq<char> {
    s.map_values(|c: char| if c == ' ' { '_' } else { c })
}

/// `s` with every space turned into an underscore, as
/// `str::replace(' ', "_")` gives it.
pub fn replace_spaces(s: &str) -> (r: String)
    ensures
        r@ == spaces_to_underscores(s@),
{
    let n = s.unicode_len();
    let mut out = String::new();
    let mut start: usize = 0;
    let mut i: usize = 0;
    while i < n
        invariant
            n == s@.len(),
            start <= i <= n,
            out@ + s@.subrange(start as int, i as int) == spaces_to_underscores(s@).take(i as int),
            forall|j: int| start <= j < i ==> s@[j] != ' ',
        decreases n - i,
    {
        let c = s.get_char(i);
        if c == ' ' {
            out.append(s.substring_char(start, i));
            out.append("_");
            proof {
                reveal_strlit("_");
                assert(spaces_to_underscores(s@).take(i as int + 1) =~= spaces_to_underscores(
                    s@,
                ).take(i as int).push('_'));
            }
            i = i + 1;
            start = i;
            assert(s@.subrange(start as int, i as int) =~= Seq::<char>::empty());
        } else {
            let ghost before = out@ + s@.subrange(start as int, i as int);
            i = i + 1;
            assert(out@ + s@.subrange(start as int, i as int) =~= before.push(c));
            assert(spaces_to_underscores(s@).take(i as int) =~= spaces_to_underscores(s@).take(
                i as int - 1,
            ).push(c));
        }
    }
    out.append(s.substring_char(start, n));
    assert(spaces_to_underscores(s@).take(n as int) =~= spaces_to_underscores(s@));
    out
}

} // verus!
