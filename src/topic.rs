use vstd::prelude::*;
use crate::bytes::bytes_equal;
use crate::strings::{is_valid_mqtt_string, valid_mqtt_string};

verus! {

pub const SLASH: u8 = 0x2F;
pub const PLUS: u8 = 0x2B;
pub const HASH: u8 = 0x23;

/// The levels of a topic name or filter: the byte strings between `/`.
pub open spec fn split(s: Seq<u8>) -> Seq<Seq<u8>>
    decreases s.len(),
{
    if s.len() == 0 {
        seq![Seq::<u8>::empty()]
    } else {
        let r = split(s.drop_first());
        if s[0] == SLASH {
            seq![Seq::<u8>::empty()] + r
        } else {
            r.update(0, seq![s[0]] + r[0])
        }
    }
}

pub proof fn lemma_split_nonempty(s: Seq<u8>)
    ensures
        split(s).len() >= 1,
    decreases s.len(),
{
    if s.len() > 0 {
        lemma_split_nonempty(s.drop_first());
    }
}

/// Whether the filter levels `f` match the topic levels `t`: `+` takes
/// exactly one level, a `#` as the last filter level takes all the levels
/// left (none included), and any other level must equal its topic level.
pub open spec fn levels_match(f: Seq<Seq<u8>>, t: Seq<Seq<u8>>) -> bool
    decreases f.len(),
{
    if f.len() == 0 {
        t.len() == 0
    } else if f[0] == seq![HASH] {
        f.len() == 1
    } else if t.len() == 0 {
        false
    } else if f[0] == seq![PLUS] {
        levels_match(f.drop_first(), t.drop_first())
    } else {
        f[0] == t[0] && levels_match(f.drop_first(), t.drop_first())
    }
}

/// Whether the topic filter `filter` matches the topic name `topic`.
pub open spec fn topic_matches(filter: Seq<u8>, topic: Seq<u8>) -> bool {
    levels_match(split(filter), split(topic))
}

/// A topic name is a non-empty string that holds no wildcard.
pub open spec fn valid_topic_name(t: Seq<u8>) -> bool {
    &&& 0 < t.len() <= 65535
    &&& valid_mqtt_string(t)
    &&& forall|i: int| 0 <= i < t.len() ==> t[i] != PLUS && t[i] != HASH
}

/// A topic filter is a non-empty string; each wildcard fills a level of its
/// own, and `#` only the last one.
pub open spec fn valid_topic_filter(f: Seq<u8>) -> bool {
    &&& 0 < f.len() <= 65535
    &&& valid_mqtt_string(f)
    &&& forall|i: int|
        0 <= i < f.len() && (#[trigger] f[i] == PLUS || f[i] == HASH) ==> (i == 0 || f[i - 1] == SLASH)
    &&& forall|i: int| 0 <= i < f.len() && #[trigger] f[i] == PLUS ==> (i + 1 == f.len() || f[i + 1] == SLASH)
    &&& forall|i: int| 0 <= i < f.len() && #[trigger] f[i] == HASH ==> i + 1 == f.len()
}

pub open spec fn levels_view(v: Seq<Vec<u8>>) -> Seq<Seq<u8>> {
    v.map_values(|x: Vec<u8>| x@)
}

/// Splits `s` into its levels.
pub fn split_levels(s: &[u8]) -> (r: Vec<Vec<u8>>)
    ensures
        levels_view(r@) == split(s@),
{
    let mut levels: Vec<Vec<u8>> = Vec::new();
    levels.push(Vec::new());
    let mut i: usize = s.len();
    proof {
        assert(s@.skip(s@.len() as int) =~= Seq::<u8>::empty());
        assert(levels_view(levels@) =~= split(Seq::<u8>::empty()));
    }
    while i > 0
        invariant
            i <= s@.len(),
            levels_view(levels@) == split(s@.skip(i as int)),
        decreases i,
    {
        i = i - 1;
        let c = s[i];
        proof {
            assert(s@.skip(i as int).drop_first() =~= s@.skip(i + 1));
            lemma_split_nonempty(s@.skip(i + 1));
        }
        let ghost before = levels@;
        if c == SLASH {
            levels.insert(0, Vec::new());
            proof {
                assert(levels_view(levels@) =~= seq![Seq::<u8>::empty()] + levels_view(before));
            }
        } else {
            let mut first = levels.remove(0);
            first.insert(0, c);
            levels.insert(0, first);
            proof {
                let r = levels_view(before);
                assert(first@ =~= seq![c] + r[0]);
                assert(levels_view(levels@) =~= r.update(0, seq![c] + r[0]));
            }
        }
    }
    proof {
        assert(s@.skip(0) =~= s@);
    }
    levels
}

fn is_single(level: &Vec<u8>, c: u8) -> (r: bool)
    ensures
        r == (level@ == seq![c]),
{
    if level.len() == 1 && level[0] == c {
        assert(level@ =~= seq![c]);
        true
    } else {
        false
    }
}

/// Whether `filter` matches `topic`, level by level.
pub fn matches_topic(filter: &[u8], topic: &[u8]) -> (r: bool)
    ensures
        r == topic_matches(filter@, topic@),
{
    let f = split_levels(filter);
    let t = split_levels(topic);
    let ghost fv = levels_view(f@);
    let ghost tv = levels_view(t@);
    let mut i: usize = 0;
    proof {
        assert(fv.skip(0) =~= fv);
        assert(tv.skip(0) =~= tv);
    }
    while i < f.len()
        invariant
            fv == levels_view(f@),
            tv == levels_view(t@),
            fv == split(filter@),
            tv == split(topic@),
            i <= f@.len(),
            i <= t@.len(),
            levels_match(fv, tv) == levels_match(fv.skip(i as int), tv.skip(i as int)),
        decreases f@.len() - i,
    {
        assert(fv.skip(i as int)[0] == f@[i as int]@);
        if is_single(&f[i], HASH) {
            return i + 1 == f.len();
        }
        if i == t.len() {
            return false;
        }
        assert(tv.skip(i as int)[0] == t@[i as int]@);
        assert(fv.skip(i as int).drop_first() =~= fv.skip(i + 1));
        assert(tv.skip(i as int).drop_first() =~= tv.skip(i + 1));
        if !is_single(&f[i], PLUS) {
            if !bytes_equal(f[i].as_slice(), t[i].as_slice()) {
                return false;
            }
        }
        i = i + 1;
    }
    i == t.len()
}

/// Whether `t` may be published on: a non-empty string without wildcards.
pub fn is_valid_topic_name(t: &[u8]) -> (r: bool)
    ensures
        r == valid_topic_name(t@),
{
    if t.len() == 0 || t.len() > 65535 || !is_valid_mqtt_string(t) {
        return false;
    }
    let mut i: usize = 0;
    while i < t.len()
        invariant
            i <= t@.len(),
            forall|j: int| 0 <= j < i ==> t@[j] != PLUS && t@[j] != HASH,
        decreases t@.len() - i,
    {
        if t[i] == PLUS || t[i] == HASH {
            return false;
        }
        i = i + 1;
    }
    true
}

/// Whether `f` may be subscribed to.
pub fn is_valid_topic_filter(f: &[u8]) -> (r: bool)
    ensures
        r == valid_topic_filter(f@),
{
    if f.len() == 0 || f.len() > 65535 || !is_valid_mqtt_string(f) {
        return false;
    }
    let n = f.len();
    let mut i: usize = 0;
    while i < n
        invariant
            n == f@.len(),
            i <= n,
            forall|j: int|
                0 <= j < i && (#[trigger] f@[j] == PLUS || f@[j] == HASH) ==> (j == 0 || f@[j - 1] == SLASH),
            forall|j: int| 0 <= j < i && #[trigger] f@[j] == PLUS ==> (j + 1 == n || f@[j + 1] == SLASH),
            forall|j: int| 0 <= j < i && #[trigger] f@[j] == HASH ==> j + 1 == n,
        decreases n - i,
    {
        let c = f[i];
        if c == PLUS || c == HASH {
            if i > 0 && f[i - 1] != SLASH {
                return false;
            }
        }
        if c == PLUS && i + 1 < n && f[i + 1] != SLASH {
            return false;
        }
        if c == HASH && i + 1 != n {
            return false;
        }
        i = i + 1;
    }
    true
}

} // verus!
