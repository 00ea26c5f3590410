//! Topic names, topic filters, and MQTT wildcard matching: `+` matches
//! exactly one level, `#` matches zero or more trailing levels and is valid
//! only as the whole last level. Topics and filters are byte strings split
//! into levels on `/`.

use vstd::prelude::*;

verus! {

/// The level separator `/`.
pub const SEP: u8 = 47;

/// The single-level wildcard `+`.
pub const PLUS: u8 = 43;

/// The multi-level wildcard `#`.
pub const HASH: u8 = 35;

/// The levels of a topic or filter: the byte string split on `/`. The empty
/// string has one empty level; every string has one more level than it has
/// separators.
pub open spec fn spec_split(s: Seq<u8>) -> Seq<Seq<u8>>
    decreases s.len(),
{
    if s.len() == 0 {
        seq![Seq::empty()]
    } else if s[0] == SEP {
        seq![Seq::<u8>::empty()] + spec_split(s.skip(1))
    } else {
        let r = spec_split(s.skip(1));
        r.update(0, seq![s[0]] + r[0])
    }
}

/// A split is never empty.
pub proof fn lemma_split_nonempty(s: Seq<u8>)
    ensures
        spec_split(s).len() >= 1,
    decreases s.len(),
{
    if s.len() > 0 {
        lemma_split_nonempty(s.skip(1));
    }
}

/// Matching of a filter's levels against a topic's levels, per the MQTT
/// wildcard rules: an exhausted filter requires an exhausted topic; a `#`
/// level matches all remaining levels and must be last; a `+` level matches
/// any one level; any other level matches only its own bytes.
pub open spec fn spec_levels_match(f: Seq<Seq<u8>>, t: Seq<Seq<u8>>) -> bool
    decreases f.len(),
{
    if f.len() == 0 {
        t.len() == 0
    } else if f[0] == seq![HASH] {
        f.len() == 1
    } else if t.len() == 0 {
        false
    } else if f[0] == seq![PLUS] || f[0] == t[0] {
        spec_levels_match(f.skip(1), t.skip(1))
    } else {
        false
    }
}

/// A filter matches a topic when its levels match the topic's levels.
pub open spec fn spec_topic_match(filter: Seq<u8>, topic: Seq<u8>) -> bool {
    spec_levels_match(spec_split(filter), spec_split(topic))
}

/// A valid filter is nonempty, uses `#` only as the whole last level, and
/// uses `+` only as a whole level.
pub open spec fn spec_valid_filter_levels(ls: Seq<Seq<u8>>) -> bool {
    forall|i: int|
        0 <= i < ls.len() ==> ((ls[i].contains(HASH) ==> ls[i] == seq![HASH] && i == ls.len() - 1)
            && (ls[i].contains(PLUS) ==> ls[i] == seq![PLUS]))
}

pub open spec fn spec_valid_filter(filter: Seq<u8>) -> bool {
    filter.len() >= 1 && spec_valid_filter_levels(spec_split(filter))
}

/// A valid topic to publish on is nonempty and holds no wildcard byte.
pub open spec fn spec_valid_topic(topic: Seq<u8>) -> bool {
    topic.len() >= 1 && !topic.contains(HASH) && !topic.contains(PLUS)
}

/// Pairwise matching of wildcard-free-tail filters: as many levels as the
/// topic, each either `+` or equal to the topic's level.
pub open spec fn spec_pairwise_match(f: Seq<Seq<u8>>, t: Seq<Seq<u8>>) -> bool {
    f.len() == t.len() && forall|i: int|
        0 <= i < f.len() ==> f[i] == seq![PLUS] || f[i] == t[i]
}

/// The single-level wildcard matches exactly the topics of one level: a
/// filter that is one `+` level matches a topic's levels if and only if
/// there is exactly one of them.
pub proof fn lemma_plus_matches_one_level(t: Seq<Seq<u8>>)
    ensures
        spec_levels_match(seq![seq![PLUS]], t) <==> t.len() == 1,
{
    reveal_with_fuel(spec_levels_match, 3);
    let f = seq![seq![PLUS]];
    assert(f[0] == seq![PLUS]);
    assert(seq![PLUS] != seq![HASH]) by {
        assert(seq![PLUS][0] == PLUS);
        assert(seq![HASH][0] == HASH);
    }
    assert(f.skip(1) =~= Seq::<Seq<u8>>::empty());
    if t.len() == 1 {
        assert(t.skip(1) =~= Seq::<Seq<u8>>::empty());
    }
}

/// A filter without `#` matches exactly level for level: each of its levels
/// is `+` or equal to the topic's level, and the counts agree.
pub proof fn lemma_match_without_hash(f: Seq<Seq<u8>>, t: Seq<Seq<u8>>)
    requires
        !f.contains(seq![HASH]),
    ensures
        spec_levels_match(f, t) <==> spec_pairwise_match(f, t),
    decreases f.len(),
{
    if f.len() == 0 {
    } else {
        assert(f[0] != seq![HASH]);
        if t.len() == 0 {
        } else {
            assert(!f.skip(1).contains(seq![HASH])) by {
                if f.skip(1).contains(seq![HASH]) {
                    let j = choose|j: int| 0 <= j < f.skip(1).len() && f.skip(1)[j] == seq![HASH];
                    assert(f[j + 1] == seq![HASH]);
                }
            }
            lemma_match_without_hash(f.skip(1), t.skip(1));
            if f[0] == seq![PLUS] || f[0] == t[0] {
                assert(spec_pairwise_match(f.skip(1), t.skip(1)) ==> spec_pairwise_match(f, t))
                    by {
                    if spec_pairwise_match(f.skip(1), t.skip(1)) {
                        assert forall|i: int| 0 <= i < f.len() implies f[i] == seq![PLUS] || f[i]
                            == t[i] by {
                            if i > 0 {
                                assert(f.skip(1)[i - 1] == seq![PLUS] || f.skip(1)[i - 1]
                                    == t.skip(1)[i - 1]);
                            }
                        }
                    }
                }
                assert(spec_pairwise_match(f, t) ==> spec_pairwise_match(f.skip(1), t.skip(1)))
                    by {
                    if spec_pairwise_match(f, t) {
                        assert forall|i: int| 0 <= i < f.skip(1).len() implies f.skip(1)[i]
                            == seq![PLUS] || f.skip(1)[i] == t.skip(1)[i] by {
                            assert(f[i + 1] == seq![PLUS] || f[i + 1] == t[i + 1]);
                        }
                    }
                }
            } else {
                assert(!spec_pairwise_match(f, t)) by {
                    if spec_pairwise_match(f, t) {
                        assert(f[0] == seq![PLUS] || f[0] == t[0]);
                    }
                }
            }
        }
    }
}

/// A filter whose last level is `#` matches a topic's levels exactly when
/// the levels before the `#` match, level for level, a leading prefix of the
/// topic's levels: `#` matches the zero or more levels that remain.
pub proof fn lemma_hash_matches_trailing(f: Seq<Seq<u8>>, t: Seq<Seq<u8>>)
    requires
        !f.contains(seq![HASH]),
    ensures
        spec_levels_match(f + seq![seq![HASH]], t) <==> (f.len() <= t.len()
            && spec_pairwise_match(f, t.take(f.len() as int))),
    decreases f.len(),
{
    let fh = f + seq![seq![HASH]];
    if f.len() == 0 {
        assert(fh[0] == seq![HASH]);
        assert(fh.len() == 1);
        assert(spec_pairwise_match(f, t.take(0)));
    } else {
        assert(f[0] != seq![HASH]);
        assert(fh[0] == f[0]);
        if t.len() == 0 {
            assert(!(f.len() <= t.len()));
        } else if fh[0] == seq![PLUS] || fh[0] == t[0] {
            assert(!f.skip(1).contains(seq![HASH])) by {
                if f.skip(1).contains(seq![HASH]) {
                    let j = choose|j: int| 0 <= j < f.skip(1).len() && f.skip(1)[j] == seq![HASH];
                    assert(f[j + 1] == seq![HASH]);
                }
            }
            lemma_hash_matches_trailing(f.skip(1), t.skip(1));
            assert(fh.skip(1) =~= f.skip(1) + seq![seq![HASH]]);
            if f.len() <= t.len() {
                let tp = t.take(f.len() as int);
                assert(t.skip(1).take(f.skip(1).len() as int) =~= tp.skip(1));
                assert(spec_pairwise_match(f, tp) <==> spec_pairwise_match(
                    f.skip(1),
                    tp.skip(1),
                )) by {
                    if spec_pairwise_match(f, tp) {
                        assert forall|i: int| 0 <= i < f.skip(1).len() implies f.skip(1)[i]
                            == seq![PLUS] || f.skip(1)[i] == tp.skip(1)[i] by {
                            assert(f[i + 1] == seq![PLUS] || f[i + 1] == tp[i + 1]);
                        }
                    }
                    if spec_pairwise_match(f.skip(1), tp.skip(1)) {
                        assert forall|i: int| 0 <= i < f.len() implies f[i] == seq![PLUS] || f[i]
                            == tp[i] by {
                            if i > 0 {
                                assert(f.skip(1)[i - 1] == seq![PLUS] || f.skip(1)[i - 1]
                                    == tp.skip(1)[i - 1]);
                            } else {
                                assert(f[0] == seq![PLUS] || f[0] == t[0]);
                                assert(tp[0] == t[0]);
                            }
                        }
                    }
                }
            } else {
                assert(f.skip(1).len() > t.skip(1).len());
            }
        } else {
            assert(!spec_levels_match(fh, t));
            let tp = t.take(f.len() as int);
            if f.len() <= t.len() && spec_pairwise_match(f, tp) {
                assert(f[0] == seq![PLUS] || f[0] == tp[0]);
                assert(tp[0] == t[0]);
            }
        }
    }
}

/// Two byte strings are equal.
pub fn bytes_eq(a: &Vec<u8>, b: &Vec<u8>) -> (r: bool)
    ensures
        r <==> a@ == b@,
{
    if a.len() != b.len() {
        assert(a@ != b@) by {
            assert(a@.len() != b@.len());
        }
        return false;
    }
    let n = a.len();
    let mut k: usize = 0;
    while k < n
        invariant
            n == a@.len() == b@.len(),
            k <= n,
            forall|i: int| 0 <= i < k ==> a@[i] == b@[i],
        decreases n - k,
    {
        if a[k] != b[k] {
            return false;
        }
        k = k + 1;
    }
    assert(a@ =~= b@);
    true
}

/// `v` holds the byte `b`.
pub fn contains_byte(v: &Vec<u8>, b: u8) -> (r: bool)
    ensures
        r <==> v@.contains(b),
{
    let n = v.len();
    let mut k: usize = 0;
    while k < n
        invariant
            n == v@.len(),
            k <= n,
            forall|i: int| 0 <= i < k ==> v@[i] != b,
        decreases n - k,
    {
        if v[k] == b {
            return true;
        }
        k = k + 1;
    }
    false
}

/// The views of a sequence of byte vectors.
pub open spec fn views_of(v: Seq<Vec<u8>>) -> Seq<Seq<u8>> {
    v.map_values(|x: Vec<u8>| x@)
}

/// Matches a filter's levels against a topic's levels.
pub fn levels_match(f: &Vec<Vec<u8>>, t: &Vec<Vec<u8>>) -> (r: bool)
    ensures
        r == spec_levels_match(views_of(f@), views_of(t@)),
{
    let ghost fs = views_of(f@);
    let ghost ts = views_of(t@);
    let fl = f.len();
    let tl = t.len();
    let mut i: usize = 0;
    proof {
        assert(fs.skip(0) =~= fs);
        assert(ts.skip(0) =~= ts);
    }
    while i < fl || i < tl
        invariant
            fl == fs.len(),
            tl == ts.len(),
            i <= fl,
            i <= tl,
            fs == views_of(f@),
            ts == views_of(t@),
            spec_levels_match(fs, ts) <==> spec_levels_match(
                fs.skip(i as int),
                ts.skip(i as int),
            ),
        decreases fl + tl - i,
    {
        if i == fl {
            proof {
                assert(fs.skip(i as int).len() == 0);
                assert(ts.skip(i as int).len() > 0);
            }
            return false;
        }
        let fi = &f[i];
        proof {
            assert(fs.skip(i as int)[0] == fs[i as int]);
            assert(fs[i as int] == fi@);
        }
        if fi.len() == 1 && fi[0] == HASH {
            proof {
                assert(fi@ =~= seq![HASH]);
            }
            return i + 1 == fl;
        }
        proof {
            assert(fi@ != seq![HASH]);
        }
        if i == tl {
            proof {
                assert(ts.skip(i as int).len() == 0);
                assert(fs.skip(i as int).len() > 0);
            }
            return false;
        }
        let ti = &t[i];
        proof {
            assert(ts.skip(i as int)[0] == ts[i as int]);
            assert(ts[i as int] == ti@);
        }
        let is_plus = fi.len() == 1 && fi[0] == PLUS;
        proof {
            if fi@.len() == 1 && fi@[0] == PLUS {
                assert(fi@ =~= seq![PLUS]);
            }
        }
        if is_plus || bytes_eq(fi, ti) {
            proof {
                assert(fs.skip(i as int).skip(1) =~= fs.skip(i + 1));
                assert(ts.skip(i as int).skip(1) =~= ts.skip(i + 1));
            }
            i = i + 1;
        } else {
            proof {
                assert(fi@ != seq![PLUS]);
            }
            return false;
        }
    }
    proof {
        assert(fs.skip(i as int).len() == 0);
        assert(ts.skip(i as int).len() == 0);
    }
    true
}

/// A filter matches a topic under the MQTT wildcard rules.
pub fn topic_matches(filter: &Vec<u8>, topic: &Vec<u8>) -> (r: bool)
    ensures
        r == spec_topic_match(filter@, topic@),
{
    let fl = split_levels(filter);
    let tl = split_levels(topic);
    levels_match(&fl, &tl)
}

/// The filter is valid: nonempty, `#` only as the whole last level, `+`
/// only as a whole level.
pub fn valid_filter(filter: &Vec<u8>) -> (r: bool)
    ensures
        r == spec_valid_filter(filter@),
{
    if filter.len() == 0 {
        return false;
    }
    let levels = split_levels(filter);
    let ghost ls = views_of(levels@);
    let n = levels.len();
    let mut i: usize = 0;
    while i < n
        invariant
            n == ls.len(),
            i <= n,
            ls == views_of(levels@),
            ls == spec_split(filter@),
            forall|j: int|
                0 <= j < i ==> ((ls[j].contains(HASH) ==> ls[j] == seq![HASH] && j == ls.len()
                    - 1) && (ls[j].contains(PLUS) ==> ls[j] == seq![PLUS])),
        decreases n - i,
    {
        let li = &levels[i];
        proof {
            assert(ls[i as int] == li@);
        }
        if contains_byte(li, HASH) {
            if !(li.len() == 1 && i + 1 == n) {
                return false;
            }
            proof {
                assert(li@.contains(HASH));
                let j = choose|j: int| 0 <= j < li@.len() && li@[j] == HASH;
                assert(li@ =~= seq![HASH]);
            }
        }
        if contains_byte(li, PLUS) {
            if li.len() != 1 {
                return false;
            }
            proof {
                assert(li@.contains(PLUS));
                let j = choose|j: int| 0 <= j < li@.len() && li@[j] == PLUS;
                assert(li@ =~= seq![PLUS]);
            }
        }
        i = i + 1;
    }
    true
}

/// The topic is one a PUBLISH may use: nonempty and wildcard free.
pub fn valid_topic(topic: &Vec<u8>) -> (r: bool)
    ensures
        r == spec_valid_topic(topic@),
{
    topic.len() >= 1 && !contains_byte(topic, HASH) && !contains_byte(topic, PLUS)
}

/// Splits a byte string into its levels.
pub fn split_levels(s: &Vec<u8>) -> (r: Vec<Vec<u8>>)
    ensures
        views_of(r@) == spec_split(s@),
{
    let n = s.len();
    let mut out: Vec<Vec<u8>> = Vec::new();
    let mut level: Vec<u8> = Vec::new();
    let mut k: usize = 0;
    proof {
        assert(level@ + s@.skip(0) =~= s@);
        assert(views_of(out@) =~= Seq::<Seq<u8>>::empty());
        assert(views_of(out@) + spec_split(s@) =~= spec_split(s@));
    }
    while k < n
        invariant
            n == s@.len(),
            k <= n,
            !level@.contains(SEP),
            spec_split(s@) == views_of(out@) + spec_split(level@ + s@.skip(k as int)),
        decreases n - k,
    {
        let ghost rem = level@ + s@.skip(k as int);
        if s[k] == SEP {
            proof {
                assert(rem =~= level@ + (seq![SEP] + s@.skip(k + 1)));
                lemma_split_sep_head(level@, rem, s@.skip(k + 1));
            }
            let ghost prev_out = out@;
            let ghost lv = level@;
            out.push(level);
            level = Vec::new();
            proof {
                assert(views_of(out@) =~= views_of(prev_out) + seq![lv]);
                assert(level@ + s@.skip(k + 1) =~= s@.skip(k + 1));
            }
        } else {
            let c = s[k];
            let ghost lv = level@;
            level.push(c);
            proof {
                assert(level@ =~= lv.push(c));
                assert(level@ + s@.skip(k + 1) =~= rem);
                assert(!level@.contains(SEP)) by {
                    if level@.contains(SEP) {
                        let j = choose|j: int| 0 <= j < level@.len() && level@[j] == SEP;
                        if j < lv.len() {
                            assert(lv[j] == SEP);
                        }
                    }
                }
            }
        }
        k = k + 1;
    }
    proof {
        assert(level@ + s@.skip(n as int) =~= level@);
        lemma_split_single(level@);
    }
    let ghost prev_out = out@;
    let ghost lv = level@;
    out.push(level);
    proof {
        assert(views_of(out@) =~= views_of(prev_out) + seq![lv]);
    }
    out
}

/// A separator-free string splits into itself as the single level.
pub proof fn lemma_split_single(s: Seq<u8>)
    requires
        !s.contains(SEP),
    ensures
        spec_split(s) == seq![s],
    decreases s.len(),
{
    if s.len() == 0 {
        assert(s =~= Seq::<u8>::empty());
        assert(spec_split(s) =~= seq![s]);
    } else {
        assert(s[0] != SEP);
        assert(!s.skip(1).contains(SEP)) by {
            if s.skip(1).contains(SEP) {
                let j = choose|j: int| 0 <= j < s.skip(1).len() && s.skip(1)[j] == SEP;
                assert(s[j + 1] == SEP);
            }
        }
        lemma_split_single(s.skip(1));
        assert(spec_split(s) =~~= seq![s]) by {
            assert(seq![s[0]] + s.skip(1) =~= s);
        }
    }
}

/// Splitting a string whose first level is `head` (separator free) followed
/// by a separator: the head becomes the first level.
pub proof fn lemma_split_sep_head(head: Seq<u8>, s: Seq<u8>, rest: Seq<u8>)
    requires
        !head.contains(SEP),
        s == head + (seq![SEP] + rest),
    ensures
        spec_split(s) == seq![head] + spec_split(rest),
    decreases head.len(),
{
    if head.len() == 0 {
        assert(head =~= Seq::<u8>::empty());
        assert(s =~= seq![SEP] + rest);
        assert(s[0] == SEP);
        assert(s.skip(1) =~= rest);
        assert(spec_split(s) =~= seq![head] + spec_split(rest));
    } else {
        assert(s[0] == head[0]);
        assert(head[0] != SEP);
        assert(!head.skip(1).contains(SEP)) by {
            if head.skip(1).contains(SEP) {
                let j = choose|j: int| 0 <= j < head.skip(1).len() && head.skip(1)[j] == SEP;
                assert(head[j + 1] == SEP);
            }
        }
        assert(s.skip(1) =~= head.skip(1) + (seq![SEP] + rest));
        lemma_split_sep_head(head.skip(1), s.skip(1), rest);
        lemma_split_nonempty(rest);
        let r = spec_split(s.skip(1));
        assert(r == seq![head.skip(1)] + spec_split(rest));
        assert(r[0] == head.skip(1));
        assert(spec_split(s) == r.update(0, seq![s[0]] + r[0]));
        assert(seq![s[0]] + head.skip(1) =~= head);
        assert(r.update(0, head) =~= seq![head] + spec_split(rest));
    }
}

} // verus!
