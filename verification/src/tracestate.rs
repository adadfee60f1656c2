//! The `tracestate` header: an ordered list of vendor key/value annotations,
//! capped at 32 entries, encoded as comma-separated `key=value` items.
//! Malformed items are dropped individually; decoding never fails as a whole.

use vstd::prelude::*;
use crate::hex::push_char;

verus! {

/// The number of entries a trace state may hold.
pub const TRACESTATE_MAX_ENTRIES: usize = 32;

/// A lowercase letter or a digit, the characters a key may start with.
pub open spec fn is_key_start_char(c: char) -> bool {
    (97 <= c as u32 && c as u32 <= 122) || (48 <= c as u32 && c as u32 <= 57)
}

/// A character allowed after the first position of a key part.
pub open spec fn is_key_char(c: char) -> bool {
    is_key_start_char(c) || c == '_' || c == '*' || c == '/' || c == '-'
}

/// A character allowed in a value: printable, and neither the entry
/// separator `,` nor the pair separator `=`.
pub open spec fn is_value_char(c: char) -> bool {
    32 <= c as u32 && c as u32 <= 126 && c != ',' && c != '='
}

/// A well-formed simple key: nonempty, at most 256 characters, starting
/// with a lowercase letter or digit.
pub open spec fn valid_simple_key(k: Seq<char>) -> bool {
    &&& 1 <= k.len() <= 256
    &&& is_key_start_char(k[0])
    &&& forall|i: int| 0 < i < k.len() ==> is_key_char(#[trigger] k[i])
}

/// A well-formed key: at most 256 characters, either a simple key or a
/// tenant part and a system part joined by a single vendor `@` separator.
pub open spec fn valid_key(k: Seq<char>) -> bool {
    &&& k.len() <= 256
    &&& (valid_simple_key(k) || exists|i: int|
        0 < i < k.len() && k[i] == '@' && valid_simple_key(#[trigger] k.take(i))
            && valid_simple_key(k.skip(i + 1)))
}

/// No character of a well-formed key is a separator: neither `,` nor `=`.
proof fn lemma_valid_key_chars(k: Seq<char>)
    requires
        valid_key(k),
    ensures
        forall|i: int| 0 <= i < k.len() ==> #[trigger] k[i] != ',' && k[i] != '=',
{
    if valid_simple_key(k) {
        assert forall|i: int| 0 <= i < k.len() implies #[trigger] k[i] != ',' && k[i] != '=' by {
            if i == 0 {
                assert(is_key_start_char(k[0]));
            } else {
                assert(is_key_char(k[i]));
            }
        }
    } else {
        let w = choose|i: int|
            0 < i < k.len() && k[i] == '@' && valid_simple_key(k.take(i)) && valid_simple_key(
                k.skip(i + 1),
            );
        assert forall|i: int| 0 <= i < k.len() implies #[trigger] k[i] != ',' && k[i] != '=' by {
            if i < w {
                assert(k.take(w)[i] == k[i]);
                if i == 0 {
                    assert(is_key_start_char(k.take(w)[0]));
                } else {
                    assert(is_key_char(k.take(w)[i]));
                }
            } else if i == w {
                assert(k[i] == '@');
            } else {
                let t = k.skip(w + 1);
                assert(t[i - w - 1] == k[i]);
                if i == w + 1 {
                    assert(is_key_start_char(t[0]));
                } else {
                    assert(is_key_char(t[i - w - 1]));
                }
            }
        }
    }
}

/// A well-formed value: at most 256 printable characters without `,` or `=`.
pub open spec fn valid_value(v: Seq<char>) -> bool {
    &&& v.len() <= 256
    &&& forall|i: int| 0 <= i < v.len() ==> is_value_char(#[trigger] v[i])
}

/// Some entry of `es` already uses key `k`.
pub open spec fn has_key(es: Seq<(Seq<char>, Seq<char>)>, k: Seq<char>) -> bool {
    exists|i: int| 0 <= i < es.len() && es[i].0 == k
}

/// A well-formed entry list: all entries valid, keys unique, at most 32.
pub open spec fn state_wf(es: Seq<(Seq<char>, Seq<char>)>) -> bool {
    &&& es.len() <= 32
    &&& forall|i: int|
        0 <= i < es.len() ==> valid_key((#[trigger] es[i]).0) && valid_value(es[i].1)
    &&& forall|i: int, j: int| 0 <= i < j < es.len() ==> es[i].0 != es[j].0
}

/// The wire form of one entry.
pub open spec fn entry_seq(k: Seq<char>, v: Seq<char>) -> Seq<char> {
    k + seq!['='] + v
}

/// The wire form of an entry list: entries joined by `,` in stored order.
pub open spec fn encode_entries(es: Seq<(Seq<char>, Seq<char>)>) -> Seq<char>
    decreases es.len(),
{
    if es.len() == 0 {
        Seq::empty()
    } else if es.len() == 1 {
        entry_seq(es[0].0, es[0].1)
    } else {
        entry_seq(es[0].0, es[0].1) + seq![','] + encode_entries(es.drop_first())
    }
}

/// Splits `s` at commas, with `cur` the segment being read and `acc` the
/// segments already read.
pub open spec fn split_acc(s: Seq<char>, cur: Seq<char>, acc: Seq<Seq<char>>) -> Seq<Seq<char>>
    decreases s.len(),
{
    if s.len() == 0 {
        acc.push(cur)
    } else if s[0] == ',' {
        split_acc(s.drop_first(), Seq::empty(), acc.push(cur))
    } else {
        split_acc(s.drop_first(), cur.push(s[0]), acc)
    }
}

/// The comma-separated segments of `s`.
pub open spec fn split_entries(s: Seq<char>) -> Seq<Seq<char>> {
    split_acc(s, Seq::empty(), Seq::empty())
}

/// Reads one `key=value` segment; `None` where the segment is malformed.
pub open spec fn parse_entry(seg: Seq<char>) -> Option<(Seq<char>, Seq<char>)> {
    match seg.index_of_first('=') {
        Some(i) => {
            let k = seg.take(i);
            let v = seg.skip(i + 1);
            if valid_key(k) && valid_value(v) {
                Some((k, v))
            } else {
                None
            }
        },
        None => None,
    }
}

/// Folds parsed segments into an entry list: malformed segments and repeated
/// keys are dropped, and nothing is added past the 32-entry cap.
pub open spec fn collect_entries(
    segs: Seq<Seq<char>>,
    acc: Seq<(Seq<char>, Seq<char>)>,
) -> Seq<(Seq<char>, Seq<char>)>
    decreases segs.len(),
{
    if segs.len() == 0 {
        acc
    } else {
        let rest = segs.drop_first();
        match parse_entry(segs[0]) {
            Some(e) => if acc.len() < 32 && !has_key(acc, e.0) {
                collect_entries(rest, acc.push(e))
            } else {
                collect_entries(rest, acc)
            },
            None => collect_entries(rest, acc),
        }
    }
}

/// The entry list a `tracestate` header value denotes.
pub open spec fn parse_tracestate(s: Seq<char>) -> Seq<(Seq<char>, Seq<char>)> {
    collect_entries(split_entries(s), Seq::empty())
}

/// No character of `s` is a comma.
pub open spec fn no_comma(s: Seq<char>) -> bool {
    forall|i: int| 0 <= i < s.len() ==> s[i] != ','
}

proof fn lemma_split_acc_extend(s: Seq<char>, cur: Seq<char>, acc: Seq<Seq<char>>)
    ensures
        split_acc(s, cur, acc) == acc + split_acc(s, cur, Seq::empty()),
    decreases s.len(),
{
    if s.len() == 0 {
        assert(acc.push(cur) =~= acc + Seq::<Seq<char>>::empty().push(cur));
    } else if s[0] == ',' {
        lemma_split_acc_extend(s.drop_first(), Seq::empty(), acc.push(cur));
        lemma_split_acc_extend(s.drop_first(), Seq::empty(), Seq::<Seq<char>>::empty().push(cur));
        assert(acc.push(cur) =~= acc + Seq::<Seq<char>>::empty().push(cur));
        assert(acc + Seq::<Seq<char>>::empty().push(cur) + split_acc(
            s.drop_first(),
            Seq::empty(),
            Seq::empty(),
        ) =~= acc + (Seq::<Seq<char>>::empty().push(cur) + split_acc(
            s.drop_first(),
            Seq::empty(),
            Seq::empty(),
        )));
    } else {
        lemma_split_acc_extend(s.drop_first(), cur.push(s[0]), acc);
    }
}

proof fn lemma_split_acc_nocomma(t: Seq<char>, rest: Seq<char>, cur: Seq<char>, acc: Seq<Seq<char>>)
    requires
        no_comma(t),
    ensures
        split_acc(t + rest, cur, acc) == split_acc(rest, cur + t, acc),
    decreases t.len(),
{
    if t.len() == 0 {
        assert(t + rest =~= rest);
        assert(cur + t =~= cur);
    } else {
        let s = t + rest;
        assert(s[0] == t[0]);
        assert(s[0] != ',');
        assert(s.drop_first() =~= t.drop_first() + rest);
        assert(no_comma(t.drop_first()));
        lemma_split_acc_nocomma(t.drop_first(), rest, cur.push(t[0]), acc);
        assert(cur.push(t[0]) + t.drop_first() =~= cur + t);
    }
}

/// A valid entry's wire form holds no comma.
proof fn lemma_entry_no_comma(k: Seq<char>, v: Seq<char>)
    requires
        valid_key(k),
        valid_value(v),
    ensures
        no_comma(entry_seq(k, v)),
{
    let e = entry_seq(k, v);
    lemma_valid_key_chars(k);
    assert forall|i: int| 0 <= i < e.len() implies e[i] != ',' by {
        if i < k.len() {
            assert(e[i] == k[i]);
        } else if i == k.len() {
            assert(e[i] == '=');
        } else {
            assert(e[i] == v[i - k.len() - 1]);
        }
    }
}

proof fn lemma_split_encode(es: Seq<(Seq<char>, Seq<char>)>, acc: Seq<Seq<char>>)
    requires
        es.len() >= 1,
        forall|i: int|
            0 <= i < es.len() ==> valid_key((#[trigger] es[i]).0) && valid_value(es[i].1),
    ensures
        split_acc(encode_entries(es), Seq::empty(), acc) == acc + es.map_values(
            |e: (Seq<char>, Seq<char>)| entry_seq(e.0, e.1),
        ),
    decreases es.len(),
{
    let f = |e: (Seq<char>, Seq<char>)| entry_seq(e.0, e.1);
    let e0 = entry_seq(es[0].0, es[0].1);
    lemma_entry_no_comma(es[0].0, es[0].1);
    if es.len() == 1 {
        assert(e0 =~= e0 + Seq::<char>::empty());
        lemma_split_acc_nocomma(e0, Seq::empty(), Seq::empty(), acc);
        assert(Seq::<char>::empty() + e0 =~= e0);
        assert(split_acc(Seq::empty(), e0, acc) == acc.push(e0));
        assert(acc + es.map_values(f) =~= acc.push(e0));
    } else {
        let rest = encode_entries(es.drop_first());
        assert(encode_entries(es) == e0 + seq![','] + rest);
        assert(e0 + seq![','] + rest =~= e0 + (seq![','] + rest));
        lemma_split_acc_nocomma(e0, seq![','] + rest, Seq::empty(), acc);
        assert(Seq::<char>::empty() + e0 =~= e0);
        let s2 = seq![','] + rest;
        assert(s2[0] == ',');
        assert(s2.drop_first() =~= rest);
        assert(split_acc(s2, e0, acc) == split_acc(rest, Seq::empty(), acc.push(e0)));
        assert(forall|i: int|
            0 <= i < es.drop_first().len() ==> valid_key(
                (#[trigger] es.drop_first()[i]).0,
            ) && valid_value(es.drop_first()[i].1));
        lemma_split_encode(es.drop_first(), acc.push(e0));
        assert(acc.push(e0) + es.drop_first().map_values(f) =~= acc + es.map_values(f));
    }
}

/// Reading back a valid entry's wire form yields the entry.
proof fn lemma_parse_entry_seq(k: Seq<char>, v: Seq<char>)
    requires
        valid_key(k),
        valid_value(v),
    ensures
        parse_entry(entry_seq(k, v)) == Some((k, v)),
{
    let e = entry_seq(k, v);
    lemma_valid_key_chars(k);
    e.index_of_first_ensures('=');
    assert(e[k.len() as int] == '=');
    assert(e.contains('='));
    let i = e.index_of_first('=').unwrap();
    assert(forall|j: int| 0 <= j < k.len() ==> e[j] == k[j] && e[j] != '=');
    assert(i == k.len());
    assert(e.take(i) =~= k);
    assert(e.skip(i + 1) =~= v);
}

proof fn lemma_collect_exact(
    es: Seq<(Seq<char>, Seq<char>)>,
    acc: Seq<(Seq<char>, Seq<char>)>,
)
    requires
        forall|i: int|
            0 <= i < es.len() ==> valid_key((#[trigger] es[i]).0) && valid_value(es[i].1),
        forall|i: int, j: int| 0 <= i < j < es.len() ==> es[i].0 != es[j].0,
        forall|i: int| 0 <= i < es.len() ==> !has_key(acc, (#[trigger] es[i]).0),
        acc.len() + es.len() <= 32,
    ensures
        collect_entries(
            es.map_values(|e: (Seq<char>, Seq<char>)| entry_seq(e.0, e.1)),
            acc,
        ) == acc + es,
    decreases es.len(),
{
    let f = |e: (Seq<char>, Seq<char>)| entry_seq(e.0, e.1);
    let segs = es.map_values(f);
    if es.len() == 0 {
        assert(acc + es =~= acc);
    } else {
        assert(segs[0] == entry_seq(es[0].0, es[0].1));
        lemma_parse_entry_seq(es[0].0, es[0].1);
        assert(!has_key(acc, es[0].0));
        assert(acc.len() < 32);
        assert(segs.drop_first() =~= es.drop_first().map_values(f));
        let acc2 = acc.push(es[0]);
        assert forall|i: int| 0 <= i < es.drop_first().len() implies !has_key(
            acc2,
            (#[trigger] es.drop_first()[i]).0,
        ) by {
            let k = es.drop_first()[i].0;
            assert(es[i + 1].0 == k);
            assert(es[0].0 != k);
            assert(!has_key(acc, k));
            assert forall|j: int| 0 <= j < acc2.len() implies acc2[j].0 != k by {
                if j < acc.len() {
                    assert(acc2[j] == acc[j]);
                }
            }
        }
        lemma_collect_exact(es.drop_first(), acc2);
        assert(acc2 + es.drop_first() =~= acc + es);
    }
}

/// Decoding inverts encoding: a well-formed entry list survives the wire
/// unchanged — same entries, same order, within the 32-entry cap.
pub proof fn lemma_tracestate_round_trip(es: Seq<(Seq<char>, Seq<char>)>)
    requires
        state_wf(es),
    ensures
        parse_tracestate(encode_entries(es)) == es,
{
    let f = |e: (Seq<char>, Seq<char>)| entry_seq(e.0, e.1);
    if es.len() == 0 {
        let s = encode_entries(es);
        assert(s =~= Seq::<char>::empty());
        assert(split_entries(s) == Seq::<Seq<char>>::empty().push(Seq::<char>::empty()));
        let seg = Seq::<char>::empty();
        seg.index_of_first_ensures('=');
        assert(parse_entry(seg) is None);
        let segs = split_entries(s);
        assert(segs[0] == seg);
        assert(collect_entries(segs, Seq::empty()) == collect_entries(
            segs.drop_first(),
            Seq::empty(),
        ));
        assert(segs.drop_first() =~= Seq::<Seq<char>>::empty());
        assert(parse_tracestate(s) =~= es);
    } else {
        lemma_split_encode(es, Seq::empty());
        assert(split_entries(encode_entries(es)) =~= es.map_values(f));
        assert(forall|i: int| 0 <= i < es.len() ==> !has_key(Seq::empty(), (#[trigger] es[i]).0));
        lemma_collect_exact(es, Seq::empty());
        assert(Seq::<(Seq<char>, Seq<char>)>::empty() + es =~= es);
    }
}

/// Whatever the header holds, decoding yields a well-formed entry list.
pub proof fn lemma_collect_entries_wf(segs: Seq<Seq<char>>, acc: Seq<(Seq<char>, Seq<char>)>)
    requires
        state_wf(acc),
    ensures
        state_wf(collect_entries(segs, acc)),
    decreases segs.len(),
{
    if segs.len() > 0 {
        let rest = segs.drop_first();
        match parse_entry(segs[0]) {
            Some(e) => {
                if acc.len() < 32 && !has_key(acc, e.0) {
                    let acc2 = acc.push(e);
                    assert(state_wf(acc2)) by {
                        assert forall|i: int, j: int| 0 <= i < j < acc2.len() implies acc2[i].0
                            != acc2[j].0 by {
                            if j < acc.len() {
                                assert(acc2[i] == acc[i] && acc2[j] == acc[j]);
                            } else {
                                assert(acc2[j] == e);
                                assert(acc2[i] == acc[i]);
                                assert(!has_key(acc, e.0));
                            }
                        }
                    }
                    lemma_collect_entries_wf(rest, acc2);
                } else {
                    lemma_collect_entries_wf(rest, acc);
                }
            },
            None => {
                lemma_collect_entries_wf(rest, acc);
            },
        }
    }
}

/// One `tracestate` entry: a vendor key and its opaque value.
pub struct TraceStateEntry {
    pub key: String,
    pub value: String,
}

/// The entry list a sequence of entries denotes, as character sequences.
pub open spec fn entries_view(s: Seq<TraceStateEntry>) -> Seq<(Seq<char>, Seq<char>)> {
    s.map_values(|e: TraceStateEntry| (e.key@, e.value@))
}

/// The pair list a sequence of string pairs denotes.
pub open spec fn pairs_view(s: Seq<(String, String)>) -> Seq<(Seq<char>, Seq<char>)> {
    s.map_values(|p: (String, String)| (p.0@, p.1@))
}

/// Folds raw pairs into an entry list: invalid pairs and repeated keys are
/// dropped, and nothing is added past the 32-entry cap.
pub open spec fn add_pairs(
    ps: Seq<(Seq<char>, Seq<char>)>,
    acc: Seq<(Seq<char>, Seq<char>)>,
) -> Seq<(Seq<char>, Seq<char>)>
    decreases ps.len(),
{
    if ps.len() == 0 {
        acc
    } else {
        let p = ps[0];
        let rest = ps.drop_first();
        if valid_key(p.0) && valid_value(p.1) && acc.len() < 32 && !has_key(acc, p.0) {
            add_pairs(rest, acc.push(p))
        } else {
            add_pairs(rest, acc)
        }
    }
}

proof fn lemma_state_wf_push(es: Seq<(Seq<char>, Seq<char>)>, e: (Seq<char>, Seq<char>))
    requires
        state_wf(es),
        es.len() < 32,
        valid_key(e.0),
        valid_value(e.1),
        !has_key(es, e.0),
    ensures
        state_wf(es.push(e)),
{
    let es2 = es.push(e);
    assert forall|i: int, j: int| 0 <= i < j < es2.len() implies es2[i].0 != es2[j].0 by {
        if j < es.len() {
            assert(es2[i] == es[i] && es2[j] == es[j]);
        } else {
            assert(es2[j] == e);
            assert(es2[i] == es[i]);
            assert(!has_key(es, e.0));
        }
    }
}

/// Folding any pairs yields a well-formed entry list.
pub proof fn lemma_add_pairs_wf(ps: Seq<(Seq<char>, Seq<char>)>, acc: Seq<(Seq<char>, Seq<char>)>)
    requires
        state_wf(acc),
    ensures
        state_wf(add_pairs(ps, acc)),
    decreases ps.len(),
{
    if ps.len() > 0 {
        let p = ps[0];
        let rest = ps.drop_first();
        if valid_key(p.0) && valid_value(p.1) && acc.len() < 32 && !has_key(acc, p.0) {
            lemma_state_wf_push(acc, p);
            lemma_add_pairs_wf(rest, acc.push(p));
        } else {
            lemma_add_pairs_wf(rest, acc);
        }
    }
}

/// A well-formed pair list is kept whole: nothing is dropped by the fold.
pub proof fn lemma_add_pairs_exact(
    ps: Seq<(Seq<char>, Seq<char>)>,
    acc: Seq<(Seq<char>, Seq<char>)>,
)
    requires
        forall|i: int|
            0 <= i < ps.len() ==> valid_key((#[trigger] ps[i]).0) && valid_value(ps[i].1),
        forall|i: int, j: int| 0 <= i < j < ps.len() ==> ps[i].0 != ps[j].0,
        forall|i: int| 0 <= i < ps.len() ==> !has_key(acc, (#[trigger] ps[i]).0),
        acc.len() + ps.len() <= 32,
    ensures
        add_pairs(ps, acc) == acc + ps,
    decreases ps.len(),
{
    if ps.len() == 0 {
        assert(acc + ps =~= acc);
    } else {
        let p = ps[0];
        let acc2 = acc.push(p);
        assert forall|i: int| 0 <= i < ps.drop_first().len() implies !has_key(
            acc2,
            (#[trigger] ps.drop_first()[i]).0,
        ) by {
            let k = ps.drop_first()[i].0;
            assert(ps[i + 1].0 == k);
            assert(ps[0].0 != k);
            assert(!has_key(acc, k));
            assert forall|j: int| 0 <= j < acc2.len() implies acc2[j].0 != k by {
                if j < acc.len() {
                    assert(acc2[j] == acc[j]);
                }
            }
        }
        lemma_add_pairs_exact(ps.drop_first(), acc2);
        assert(acc2 + ps.drop_first() =~= acc + ps);
    }
}

/// Whether `c` may start a key.
pub fn is_key_start_char_exec(c: char) -> (b: bool)
    ensures
        b == is_key_start_char(c),
{
    let u = c as u32;
    (97 <= u && u <= 122) || (48 <= u && u <= 57)
}

/// Whether `c` may stand in a key part after the first position.
pub fn is_key_char_exec(c: char) -> (b: bool)
    ensures
        b == is_key_char(c),
{
    is_key_start_char_exec(c) || c == '_' || c == '*' || c == '/' || c == '-'
}

/// Whether `c` may stand in a value.
pub fn is_value_char_exec(c: char) -> (b: bool)
    ensures
        b == is_value_char(c),
{
    let u = c as u32;
    32 <= u && u <= 126 && c != ',' && c != '='
}

/// Whether the characters of `s` between `from` and `to` form a valid
/// simple key.
fn check_simple_key(s: &str, from: usize, to: usize) -> (b: bool)
    requires
        from <= to <= s@.len(),
    ensures
        b == valid_simple_key(s@.subrange(from as int, to as int)),
{
    let ghost k = s@.subrange(from as int, to as int);
    if to - from < 1 || to - from > 256 {
        return false;
    }
    if !is_key_start_char_exec(s.get_char(from)) {
        assert(k[0] == s@[from as int]);
        return false;
    }
    let mut i: usize = from + 1;
    while i < to
        invariant
            from < i <= to <= s@.len(),
            k == s@.subrange(from as int, to as int),
            forall|t: int| 0 < t < i - from ==> is_key_char(#[trigger] k[t]),
        decreases to - i,
    {
        if !is_key_char_exec(s.get_char(i)) {
            assert(k[i - from] == s@[i as int]);
            return false;
        }
        assert(k[i - from] == s@[i as int]);
        i = i + 1;
    }
    assert(k[0] == s@[from as int]);
    true
}

/// The position of the first occurrence of `c` between `from` and `to`.
fn find_first_char(s: &str, from: usize, to: usize, c: char) -> (r: Option<usize>)
    requires
        from <= to <= s@.len(),
    ensures
        match r {
            Some(p) => from <= p < to && s@[p as int] == c && forall|t: int|
                from <= t < p ==> #[trigger] s@[t] != c,
            None => forall|t: int| from <= t < to ==> #[trigger] s@[t] != c,
        },
{
    let mut i: usize = from;
    while i < to
        invariant
            from <= i <= to <= s@.len(),
            forall|t: int| from <= t < i ==> #[trigger] s@[t] != c,
        decreases to - i,
    {
        if s.get_char(i) == c {
            return Some(i);
        }
        i = i + 1;
    }
    None
}

/// Whether the characters of `s` between `from` and `to` form a valid key:
/// a simple key, or two simple parts joined by one `@`.
pub fn check_key(s: &str, from: usize, to: usize) -> (b: bool)
    requires
        from <= to <= s@.len(),
    ensures
        b == valid_key(s@.subrange(from as int, to as int)),
{
    let ghost k = s@.subrange(from as int, to as int);
    if to - from > 256 {
        return false;
    }
    match find_first_char(s, from, to, '@') {
        None => {
            let b = check_simple_key(s, from, to);
            proof {
                assert(forall|i: int| 0 <= i < k.len() ==> #[trigger] k[i] == s@[from + i]);
                if !b {
                    assert forall|i: int| 0 < i < k.len() implies #[trigger] k[i] != '@' by {
                        assert(s@[from + i] != '@');
                    }
                }
            }
            b
        },
        Some(p) => {
            let left = check_simple_key(s, from, p);
            let right = check_simple_key(s, p + 1, to);
            let ghost q = p - from;
            proof {
                assert(k[q] == s@[p as int]);
                assert(k.take(q) =~= s@.subrange(from as int, p as int));
                assert(k.skip(q + 1) =~= s@.subrange(p + 1, to as int));
            }
            if left && right {
                proof {
                    assert(0 < q < k.len());
                    assert(k[q] == '@' && valid_simple_key(k.take(q)) && valid_simple_key(
                        k.skip(q + 1),
                    ));
                }
                true
            } else {
                proof {
                    assert(!valid_simple_key(k)) by {
                        if valid_simple_key(k) {
                            if q == 0 {
                                assert(is_key_start_char(k[0]));
                            } else {
                                assert(is_key_char(k[q]));
                            }
                        }
                    }
                    assert forall|i: int| 0 < i < k.len() && k[i] == '@' implies !(
                    valid_simple_key(#[trigger] k.take(i)) && valid_simple_key(k.skip(i + 1))) by {
                        if i < q {
                            assert(s@[from + i] != '@');
                            assert(k[i] != '@');
                        } else if i == q {
                        } else {
                            assert(!valid_simple_key(k.take(i))) by {
                                if valid_simple_key(k.take(i)) {
                                    assert(k.take(i)[q] == k[q]);
                                    if q == 0 {
                                        assert(is_key_start_char(k.take(i)[0]));
                                    } else {
                                        assert(is_key_char(k.take(i)[q]));
                                    }
                                }
                            }
                        }
                    }
                    assert(!valid_key(k)) by {
                        if valid_key(k) {
                            if !valid_simple_key(k) {
                                let w = choose|i: int|
                                    0 < i < k.len() && k[i] == '@' && valid_simple_key(k.take(i))
                                        && valid_simple_key(k.skip(i + 1));
                                assert(!(valid_simple_key(k.take(w)) && valid_simple_key(
                                    k.skip(w + 1),
                                )));
                            }
                        }
                    }
                }
                false
            }
        },
    }
}

/// Whether the characters of `s` between `from` and `to` form a valid value.
pub fn check_value(s: &str, from: usize, to: usize) -> (b: bool)
    requires
        from <= to <= s@.len(),
    ensures
        b == valid_value(s@.subrange(from as int, to as int)),
{
    let ghost v = s@.subrange(from as int, to as int);
    if to - from > 256 {
        return false;
    }
    let mut i: usize = from;
    while i < to
        invariant
            from <= i <= to <= s@.len(),
            v == s@.subrange(from as int, to as int),
            forall|t: int| 0 <= t < i - from ==> is_value_char(#[trigger] v[t]),
        decreases to - i,
    {
        if !is_value_char_exec(s.get_char(i)) {
            assert(v[i - from] == s@[i as int]);
            return false;
        }
        assert(v[i - from] == s@[i as int]);
        i = i + 1;
    }
    true
}

/// Reads the segment of `s` between `from` and `to` as one `key=value`
/// entry, as `parse_entry` describes.
pub fn parse_entry_exec(s: &str, from: usize, to: usize) -> (r: Option<TraceStateEntry>)
    requires
        from <= to <= s@.len(),
    ensures
        match r {
            Some(e) => parse_entry(s@.subrange(from as int, to as int)) == Some((e.key@, e.value@)),
            None => parse_entry(s@.subrange(from as int, to as int)) is None,
        },
{
    let ghost seg = s@.subrange(from as int, to as int);
    let mut j: usize = from;
    while j < to
        invariant
            from <= j <= to <= s@.len(),
            seg == s@.subrange(from as int, to as int),
            forall|t: int| 0 <= t < j - from ==> seg[t] != '=',
        decreases to - j,
    {
        let c = s.get_char(j);
        assert(seg[j - from] == s@[j as int]);
        if c == '=' {
            proof {
                seg.index_of_first_ensures('=');
                assert(seg[j - from] == '=');
                assert(seg.contains('='));
                let fi = seg.index_of_first('=').unwrap();
                assert(fi == j - from);
            }
            let key_ok = check_key(s, from, j);
            let value_ok = check_value(s, j + 1, to);
            proof {
                assert(seg.take(j - from) =~= s@.subrange(from as int, j as int));
                assert(seg.skip(j - from + 1) =~= s@.subrange(j + 1, to as int));
            }
            if key_ok && value_ok {
                let key = s.substring_char(from, j).to_owned();
                let value = s.substring_char(j + 1, to).to_owned();
                return Some(TraceStateEntry { key, value });
            } else {
                return None;
            }
        }
        j = j + 1;
    }
    proof {
        seg.index_of_first_ensures('=');
        if seg.index_of_first('=') is Some {
            let fi = seg.index_of_first('=').unwrap();
            assert(seg[fi] == '=');
        }
    }
    None
}

/// Whether some entry already uses `key`.
pub fn has_key_exec(entries: &Vec<TraceStateEntry>, key: &String) -> (b: bool)
    ensures
        b == has_key(entries_view(entries@), key@),
{
    let mut i: usize = 0;
    while i < entries.len()
        invariant
            i <= entries@.len(),
            forall|j: int| 0 <= j < i ==> entries_view(entries@)[j].0 != key@,
        decreases entries@.len() - i,
    {
        if entries[i].key.eq(key) {
            assert(entries_view(entries@)[i as int].0 == key@);
            return true;
        }
        assert(entries_view(entries@)[i as int].0 == entries@[i as int].key@);
        i = i + 1;
    }
    false
}

proof fn lemma_collect_append(a: Seq<Seq<char>>, b: Seq<Seq<char>>, acc: Seq<(Seq<char>, Seq<char>)>)
    ensures
        collect_entries(a + b, acc) == collect_entries(b, collect_entries(a, acc)),
    decreases a.len(),
{
    if a.len() == 0 {
        assert(a + b =~= b);
    } else {
        assert((a + b)[0] == a[0]);
        assert((a + b).drop_first() =~= a.drop_first() + b);
        match parse_entry(a[0]) {
            Some(e) => {
                if acc.len() < 32 && !has_key(acc, e.0) {
                    lemma_collect_append(a.drop_first(), b, acc.push(e));
                } else {
                    lemma_collect_append(a.drop_first(), b, acc);
                }
            },
            None => {
                lemma_collect_append(a.drop_first(), b, acc);
            },
        }
    }
}

/// Folds the segment of `s` between `from` and `to` into the entry list, as
/// one `collect_entries` step describes.
fn push_segment(entries: &mut Vec<TraceStateEntry>, s: &str, from: usize, to: usize)
    requires
        from <= to <= s@.len(),
    ensures
        entries_view(final(entries)@) == collect_entries(
            seq![s@.subrange(from as int, to as int)],
            entries_view(old(entries)@),
        ),
{
    let ghost seg = s@.subrange(from as int, to as int);
    let ghost acc0 = entries_view(old(entries)@);
    proof {
        assert(seq![seg].drop_first() =~= Seq::<Seq<char>>::empty());
        assert(seq![seg][0] == seg);
    }
    let parsed = parse_entry_exec(s, from, to);
    match parsed {
        Some(e) => {
            let ghost ek = e.key@;
            let ghost ev = e.value@;
            proof {
                assert(parse_entry(seg) == Some((ek, ev)));
            }
            if entries.len() < TRACESTATE_MAX_ENTRIES && !has_key_exec(entries, &e.key) {
                entries.push(e);
                proof {
                    assert(entries_view(entries@) =~= acc0.push((ek, ev)));
                    assert(collect_entries(seq![seg].drop_first(), acc0.push((ek, ev)))
                        == acc0.push((ek, ev)));
                    assert(collect_entries(seq![seg], acc0) == acc0.push((ek, ev)));
                }
            } else {
                proof {
                    assert(!(acc0.len() < 32 && !has_key(acc0, ek)));
                    assert(collect_entries(seq![seg].drop_first(), acc0) == acc0);
                    assert(collect_entries(seq![seg], acc0) == acc0);
                }
            }
        },
        None => {
            proof {
                assert(parse_entry(seg) is None);
                assert(collect_entries(seq![seg].drop_first(), acc0) == acc0);
                assert(collect_entries(seq![seg], acc0) == acc0);
            }
        },
    }
}

/// Reads a whole `tracestate` header value, as `parse_tracestate`
/// describes; the result is always well-formed.
pub fn parse_tracestate_exec(s: &str) -> (r: Vec<TraceStateEntry>)
    ensures
        entries_view(r@) == parse_tracestate(s@),
        state_wf(entries_view(r@)),
{
    let n = s.unicode_len();
    let mut entries: Vec<TraceStateEntry> = Vec::new();
    let ghost mut segs_done: Seq<Seq<char>> = Seq::empty();
    let mut seg_start: usize = 0;
    let mut i: usize = 0;
    proof {
        assert(s@.skip(0) =~= s@);
        assert(s@.subrange(0, 0) =~= Seq::<char>::empty());
        assert(segs_done + split_acc(s@.skip(0), s@.subrange(0, 0), Seq::empty()) =~= split_acc(
            s@,
            Seq::empty(),
            Seq::empty(),
        ));
        assert(entries_view(entries@) =~= Seq::<(Seq<char>, Seq<char>)>::empty());
    }
    while i < n
        invariant
            seg_start <= i <= n,
            n == s@.len(),
            split_entries(s@) == segs_done + split_acc(
                s@.skip(i as int),
                s@.subrange(seg_start as int, i as int),
                Seq::empty(),
            ),
            entries_view(entries@) == collect_entries(segs_done, Seq::empty()),
        decreases n - i,
    {
        let ghost rem = s@.skip(i as int);
        let ghost cur = s@.subrange(seg_start as int, i as int);
        proof {
            assert(rem[0] == s@[i as int]);
            assert(rem.drop_first() =~= s@.skip(i + 1));
        }
        let c = s.get_char(i);
        if c == ',' {
            proof {
                assert(split_acc(rem, cur, Seq::empty()) == split_acc(
                    s@.skip(i + 1),
                    Seq::empty(),
                    Seq::<Seq<char>>::empty().push(cur),
                ));
                lemma_split_acc_extend(s@.skip(i + 1), Seq::empty(), Seq::<Seq<char>>::empty().push(cur));
                assert(segs_done + (Seq::<Seq<char>>::empty().push(cur) + split_acc(
                    s@.skip(i + 1),
                    Seq::empty(),
                    Seq::empty(),
                )) =~= segs_done.push(cur) + split_acc(s@.skip(i + 1), Seq::empty(), Seq::empty()));
                lemma_collect_append(segs_done, seq![cur], Seq::empty());
                assert(segs_done + seq![cur] =~= segs_done.push(cur));
            }
            push_segment(&mut entries, s, seg_start, i);
            proof {
                segs_done = segs_done.push(cur);
                assert(s@.subrange(i + 1, i + 1) =~= Seq::<char>::empty());
            }
            seg_start = i + 1;
        } else {
            proof {
                assert(cur.push(s@[i as int]) =~= s@.subrange(seg_start as int, i + 1));
            }
        }
        i = i + 1;
    }
    let ghost cur = s@.subrange(seg_start as int, n as int);
    proof {
        assert(s@.skip(n as int) =~= Seq::<char>::empty());
        assert(split_acc(Seq::<char>::empty(), cur, Seq::empty())
            == Seq::<Seq<char>>::empty().push(cur));
        lemma_collect_append(segs_done, seq![cur], Seq::empty());
        assert(segs_done + seq![cur] =~= segs_done.push(cur));
        assert(segs_done + Seq::<Seq<char>>::empty().push(cur) =~= segs_done.push(cur));
    }
    push_segment(&mut entries, s, seg_start, n);
    proof {
        lemma_collect_entries_wf(split_entries(s@), Seq::empty());
    }
    entries
}

fn encode_from(entries: &Vec<TraceStateEntry>, i: usize) -> (r: String)
    requires
        i <= entries@.len(),
    ensures
        r@ == encode_entries(entries_view(entries@).skip(i as int)),
    decreases entries@.len() - i,
{
    let ghost es = entries_view(entries@);
    if i == entries.len() {
        let r = String::new();
        proof {
            assert(es.skip(i as int) =~= Seq::<(Seq<char>, Seq<char>)>::empty());
        }
        r
    } else {
        let mut out = entries[i].key.clone();
        push_char(&mut out, '=');
        out.append(entries[i].value.as_str());
        proof {
            assert(es.skip(i as int)[0] == es[i as int]);
            assert(out@ =~= entry_seq(es[i as int].0, es[i as int].1));
        }
        if i + 1 < entries.len() {
            push_char(&mut out, ',');
            let rest = encode_from(entries, i + 1);
            out.append(rest.as_str());
            proof {
                assert(es.skip(i as int).drop_first() =~= es.skip(i + 1));
                assert(es.skip(i as int).len() >= 2);
                assert(out@ =~= entry_seq(es.skip(i as int)[0].0, es.skip(i as int)[0].1)
                    + seq![','] + encode_entries(es.skip(i + 1)));
            }
            out
        } else {
            proof {
                assert(es.skip(i as int).len() == 1);
            }
            out
        }
    }
}

/// An ordered list of vendor key/value annotations riding alongside a trace
/// identity: at most 32 entries, unique well-formed keys, opaque values.
pub struct TraceState {
    entries: Vec<TraceStateEntry>,
}

impl View for TraceState {
    type V = Seq<(Seq<char>, Seq<char>)>;

    closed spec fn view(&self) -> Seq<(Seq<char>, Seq<char>)> {
        entries_view(self.entries@)
    }
}

impl TraceState {
    /// Every reachable trace state is well-formed: valid entries, unique
    /// keys, at most 32 of them.
    pub open spec fn wf(&self) -> bool {
        state_wf(self@)
    }

    /// A trace state with no entries.
    pub fn empty() -> (r: TraceState)
        ensures
            r@ == Seq::<(Seq<char>, Seq<char>)>::empty(),
            r.wf(),
    {
        let r = TraceState { entries: Vec::new() };
        proof {
            assert(r@ =~= Seq::<(Seq<char>, Seq<char>)>::empty());
        }
        r
    }

    /// Builds a trace state from raw pairs, as `add_pairs` describes:
    /// invalid pairs and repeated keys are dropped, and entries beyond the
    /// 32-entry cap are dropped, not erred.
    pub fn from_pairs(pairs: Vec<(String, String)>) -> (r: TraceState)
        ensures
            r@ == add_pairs(pairs_view(pairs@), Seq::empty()),
            r.wf(),
    {
        let ghost all = pairs_view(pairs@);
        let mut entries: Vec<TraceStateEntry> = Vec::new();
        let mut i: usize = 0;
        proof {
            assert(pairs_view(pairs@.skip(0)) =~= all);
            assert(entries_view(entries@) =~= Seq::<(Seq<char>, Seq<char>)>::empty());
        }
        while i < pairs.len()
            invariant
                i <= pairs@.len(),
                all == pairs_view(pairs@),
                add_pairs(all, Seq::empty()) == add_pairs(
                    pairs_view(pairs@.skip(i as int)),
                    entries_view(entries@),
                ),
                state_wf(entries_view(entries@)),
            decreases pairs@.len() - i,
        {
            let ghost pv = pairs_view(pairs@.skip(i as int));
            let ghost acc0 = entries_view(entries@);
            proof {
                assert(pv[0] == (pairs@[i as int].0@, pairs@[i as int].1@));
                assert(pv.drop_first() =~= pairs_view(pairs@.skip(i + 1)));
            }
            let key_len = pairs[i].0.as_str().unicode_len();
            let value_len = pairs[i].1.as_str().unicode_len();
            let key_ok = check_key(pairs[i].0.as_str(), 0, key_len);
            let value_ok = check_value(pairs[i].1.as_str(), 0, value_len);
            proof {
                assert(pairs@[i as int].0@.subrange(0, pairs@[i as int].0@.len() as int)
                    =~= pairs@[i as int].0@);
                assert(pairs@[i as int].1@.subrange(0, pairs@[i as int].1@.len() as int)
                    =~= pairs@[i as int].1@);
            }
            if key_ok && value_ok && entries.len() < TRACESTATE_MAX_ENTRIES && !has_key_exec(
                &entries,
                &pairs[i].0,
            ) {
                let ghost ek = pairs@[i as int].0@;
                let ghost ev = pairs@[i as int].1@;
                proof {
                    lemma_state_wf_push(acc0, (ek, ev));
                }
                entries.push(TraceStateEntry { key: pairs[i].0.clone(), value: pairs[i].1.clone() });
                proof {
                    assert(entries_view(entries@) =~= acc0.push((ek, ev)));
                }
            }
            i = i + 1;
        }
        proof {
            assert(pairs_view(pairs@.skip(i as int)) =~= Seq::<(Seq<char>, Seq<char>)>::empty());
        }
        let r = TraceState { entries };
        r
    }

    /// Builds a trace state from already-parsed entries.
    pub(crate) fn from_entries(entries: Vec<TraceStateEntry>) -> (r: TraceState)
        ensures
            r@ == entries_view(entries@),
    {
        TraceState { entries }
    }

    /// The number of entries.
    pub fn len(&self) -> (r: usize)
        ensures
            r as nat == self@.len(),
    {
        self.entries.len()
    }

    /// The entries as plain string pairs, in stored order.
    pub fn pairs(&self) -> (r: Vec<(String, String)>)
        ensures
            pairs_view(r@) == self@,
    {
        let mut r: Vec<(String, String)> = Vec::new();
        let mut i: usize = 0;
        while i < self.entries.len()
            invariant
                i <= self.entries@.len(),
                r@.len() == i,
                forall|j: int|
                    0 <= j < i ==> (#[trigger] r@[j]).0@ == entries_view(self.entries@)[j].0
                        && r@[j].1@ == entries_view(self.entries@)[j].1,
            decreases self.entries@.len() - i,
        {
            r.push((self.entries[i].key.clone(), self.entries[i].value.clone()));
            i = i + 1;
        }
        proof {
            assert(pairs_view(r@) =~= self@);
        }
        r
    }

    /// Encodes the trace state as its wire form: entries joined by `,` in
    /// stored order, each as `key=value`.
    pub fn encode(&self) -> (r: String)
        ensures
            r@ == encode_entries(self@),
    {
        let r = encode_from(&self.entries, 0);
        proof {
            assert(entries_view(self.entries@).skip(0) =~= self@);
        }
        r
    }

    /// Decodes a `tracestate` header value, as `parse_tracestate`
    /// describes; malformed items are dropped one by one.
    pub fn decode(header: &str) -> (r: TraceState)
        ensures
            r@ == parse_tracestate(header@),
            r.wf(),
    {
        TraceState { entries: parse_tracestate_exec(header) }
    }
}

impl Clone for TraceState {
    /// Cloning keeps the entries.
    fn clone(&self) -> (r: Self)
        ensures
            r@ == self@,
    {
        let mut entries: Vec<TraceStateEntry> = Vec::new();
        let mut i: usize = 0;
        while i < self.entries.len()
            invariant
                i <= self.entries@.len(),
                entries@.len() == i,
                forall|j: int|
                    0 <= j < i ==> (#[trigger] entries@[j]).key@ == self.entries@[j].key@
                        && entries@[j].value@ == self.entries@[j].value@,
            decreases self.entries@.len() - i,
        {
            entries.push(TraceStateEntry {
                key: self.entries[i].key.clone(),
                value: self.entries[i].value.clone(),
            });
            i = i + 1;
        }
        let r = TraceState { entries };
        proof {
            assert(r@ =~= self@);
        }
        r
    }
}

} // verus!
