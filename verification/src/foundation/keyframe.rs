//! Keyframe tracks: values at points in time, kept in time order, and the
//! lookup that finds which keyframes decide the value at a given time.

use vstd::prelude::*;
use crate::foundation::time::{RationalTime, TimeRange, lemma_same_time_equal};
use crate::foundation::timecode::{decimal, push_decimal};

verus! {

/// A value at a point in time.
#[derive(Debug, Clone, Copy)]
pub struct Keyframe<V> {
    /// Time of this keyframe (relative to clip or effect start).
    pub time: RationalTime,
    /// What holds at that time: the value and how to ease towards the next one.
    pub value: V,
}

/// Which keyframes decide the value of a track at a time.
#[derive(Debug, Clone, Copy, PartialEq, Eq, Structural)]
pub enum KeyframeLookup {
    /// The track has no keyframes.
    Empty,
    /// The value of keyframe `i` holds.
    At(usize),
    /// The value lies between keyframes `i` and `i + 1`.
    Between(usize),
}

/// Keyframe times strictly increase.
pub open spec fn sorted<V>(s: Seq<Keyframe<V>>) -> bool {
    forall|i: int, j: int| 0 <= i < j < s.len() ==> (#[trigger] s[i]).time.before((#[trigger] s[j]).time)
}

/// Every keyframe time is a well-formed time.
pub open spec fn times_wf<V>(s: Seq<Keyframe<V>>) -> bool {
    forall|i: int| 0 <= i < s.len() ==> (#[trigger] s[i]).time.wf()
}

/// Number of keyframes strictly before `t`.
pub open spec fn count_before<V>(s: Seq<Keyframe<V>>, t: RationalTime) -> nat
    decreases s.len(),
{
    if s.len() == 0 {
        0
    } else {
        count_before(s.drop_last(), t) + if s.last().time.before(t) { 1nat } else { 0nat }
    }
}

/// Number of keyframes at or before `t`.
pub open spec fn count_at_or_before<V>(s: Seq<Keyframe<V>>, t: RationalTime) -> nat
    decreases s.len(),
{
    if s.len() == 0 {
        0
    } else {
        count_at_or_before(s.drop_last(), t) + if s.last().time.at_or_before(t) { 1nat } else { 0nat }
    }
}

/// Some keyframe is at exactly `t`.
pub open spec fn has_time<V>(s: Seq<Keyframe<V>>, t: RationalTime) -> bool {
    exists|i: int| 0 <= i < s.len() && (#[trigger] s[i]).time == t
}

/// The keyframes after setting `kf`: it replaces the keyframe at its time, or
/// goes in after the keyframes before it.
pub open spec fn set_result<V>(s: Seq<Keyframe<V>>, kf: Keyframe<V>) -> Seq<Keyframe<V>> {
    let p = count_before(s, kf.time) as int;
    if p < s.len() && s[p].time == kf.time {
        s.update(p, kf)
    } else {
        s.insert(p, kf)
    }
}

/// The keyframes after removing the one at `t`, if there is one.
pub open spec fn remove_result<V>(s: Seq<Keyframe<V>>, t: RationalTime) -> Seq<Keyframe<V>> {
    if has_time(s, t) {
        s.remove(count_before(s, t) as int)
    } else {
        s
    }
}

/// Which keyframes decide the value at `t`: the first before or at the first
/// keyframe, the last at or after the last one, and otherwise the pair whose
/// first is the last keyframe at or before `t`.
pub open spec fn lookup_spec<V>(s: Seq<Keyframe<V>>, t: RationalTime) -> KeyframeLookup {
    if s.len() == 0 {
        KeyframeLookup::Empty
    } else if s.len() == 1 {
        KeyframeLookup::At(0)
    } else if t.at_or_before(s[0].time) {
        KeyframeLookup::At(0)
    } else if s.last().time.at_or_before(t) {
        KeyframeLookup::At((s.len() - 1) as usize)
    } else {
        KeyframeLookup::Between((count_at_or_before(s, t) - 1) as usize)
    }
}

/// Order of times is transitive.
pub proof fn lemma_order_trans(a: RationalTime, b: RationalTime, c: RationalTime)
    requires
        a.wf(),
        b.wf(),
        c.wf(),
    ensures
        a.before(b) && b.at_or_before(c) ==> a.before(c),
        a.at_or_before(b) && b.before(c) ==> a.before(c),
        a.at_or_before(b) && b.at_or_before(c) ==> a.at_or_before(c),
{
    let (an, ad, bn, bd, cn, cd) = (a.num(), a.den(), b.num(), b.den(), c.num(), c.den());
    assert(ad > 0 && bd > 0 && cd > 0);
    if a.before(b) && b.at_or_before(c) {
        assert(an * cd < cn * ad) by (nonlinear_arith)
            requires
                an * bd < bn * ad,
                bn * cd <= cn * bd,
                ad > 0,
                bd > 0,
                cd > 0,
        ;
    }
    if a.at_or_before(b) && b.before(c) {
        assert(an * cd < cn * ad) by (nonlinear_arith)
            requires
                an * bd <= bn * ad,
                bn * cd < cn * bd,
                ad > 0,
                bd > 0,
                cd > 0,
        ;
    }
    if a.at_or_before(b) && b.at_or_before(c) {
        assert(an * cd <= cn * ad) by (nonlinear_arith)
            requires
                an * bd <= bn * ad,
                bn * cd <= cn * bd,
                ad > 0,
                bd > 0,
                cd > 0,
        ;
    }
}

/// Two well-formed times are ordered one way or the other, or equal.
proof fn lemma_trichotomy(a: RationalTime, b: RationalTime)
    requires
        a.wf(),
        b.wf(),
    ensures
        a.before(b) || b.before(a) || a == b,
        a.at_or_before(b) <==> !b.before(a),
        !a.before(a),
{
    if !a.before(b) && !b.before(a) {
        lemma_same_time_equal(a, b);
    }
}

/// In a sorted track the keyframes before `t` are exactly the first
/// `count_before` ones, and likewise for those at or before `t`.
proof fn lemma_counts_split<V>(s: Seq<Keyframe<V>>, t: RationalTime)
    requires
        sorted(s),
        times_wf(s),
        t.wf(),
    ensures
        count_before(s, t) <= s.len(),
        count_at_or_before(s, t) <= s.len(),
        forall|k: int| 0 <= k < s.len() ==> ((#[trigger] s[k]).time.before(t) <==> k < count_before(s, t)),
        forall|k: int|
            0 <= k < s.len() ==> ((#[trigger] s[k]).time.at_or_before(t) <==> k < count_at_or_before(s, t)),
    decreases s.len(),
{
    if s.len() > 0 {
        let d = s.drop_last();
        assert(sorted(d));
        assert(times_wf(d));
        lemma_counts_split(d, t);
        let last = s.last();
        let n = s.len() as int;
        assert(s[n - 1] == last);
        if n >= 2 {
            assert(s[n - 2] == d[n - 2]);
            assert(s[n - 2].time.before(last.time));
            if last.time.before(t) {
                lemma_order_trans(d[n - 2].time, last.time, t);
                assert(d[n - 2].time.before(t));
                assert(count_before(d, t) == n - 1);
            }
            if last.time.at_or_before(t) {
                lemma_order_trans(d[n - 2].time, last.time, t);
                assert(d[n - 2].time.at_or_before(t));
                assert(count_at_or_before(d, t) == n - 1);
            }
        }
        assert forall|k: int| 0 <= k < s.len() implies ((#[trigger] s[k]).time.before(t) <==> k < count_before(
            s,
            t,
        )) by {
            if k < n - 1 {
                assert(s[k] == d[k]);
            }
        }
        assert forall|k: int| 0 <= k < s.len() implies ((#[trigger] s[k]).time.at_or_before(t) <==> k
            < count_at_or_before(s, t)) by {
            if k < n - 1 {
                assert(s[k] == d[k]);
            }
        }
    }
}

/// Setting a keyframe keeps the track sorted and well formed.
proof fn lemma_set_sorted<V>(s: Seq<Keyframe<V>>, kf: Keyframe<V>)
    requires
        sorted(s),
        times_wf(s),
        kf.time.wf(),
    ensures
        sorted(set_result(s, kf)),
        times_wf(set_result(s, kf)),
        set_result(s, kf)[count_before(s, kf.time) as int] == kf,
        count_before(s, kf.time) < set_result(s, kf).len(),
{
    let t = kf.time;
    lemma_counts_split(s, t);
    let p = count_before(s, t) as int;
    let r = set_result(s, kf);
    if p < s.len() && s[p].time == t {
        assert forall|i: int, j: int| 0 <= i < j < r.len() implies (#[trigger] r[i]).time.before(
            (#[trigger] r[j]).time,
        ) by {
            assert(r[i].time == s[i].time && r[j].time == s[j].time);
        }
    } else {
        assert forall|i: int, j: int| 0 <= i < j < r.len() implies (#[trigger] r[i]).time.before(
            (#[trigger] r[j]).time,
        ) by {
            if p < s.len() {
                lemma_trichotomy(t, s[p].time);
                lemma_trichotomy(s[p].time, t);
            }
            if i < p && j < p {
                assert(r[i] == s[i] && r[j] == s[j]);
            } else if i < p && j == p {
                assert(r[i] == s[i]);
            } else if i < p && j > p {
                assert(r[i] == s[i] && r[j] == s[j - 1]);
                lemma_trichotomy(s[j - 1].time, t);
                lemma_order_trans(s[i].time, t, s[j - 1].time);
                lemma_trichotomy(t, s[j - 1].time);
            } else if i == p {
                assert(r[j] == s[j - 1]);
                lemma_trichotomy(s[j - 1].time, t);
                if j - 1 > p {
                    assert(s[p].time.before(s[j - 1].time));
                    lemma_order_trans(t, s[p].time, s[j - 1].time);
                }
            } else {
                assert(r[i] == s[i - 1] && r[j] == s[j - 1]);
            }
        }
    }
}

/// Removing a keyframe keeps the track sorted and well formed.
proof fn lemma_remove_sorted<V>(s: Seq<Keyframe<V>>, t: RationalTime)
    requires
        sorted(s),
        times_wf(s),
        t.wf(),
    ensures
        sorted(remove_result(s, t)),
        times_wf(remove_result(s, t)),
        has_time(s, t) ==> count_before(s, t) < s.len() && s[count_before(s, t) as int].time == t,
{
    lemma_counts_split(s, t);
    if has_time(s, t) {
        let i = choose|i: int| 0 <= i < s.len() && (#[trigger] s[i]).time == t;
        let p = count_before(s, t) as int;
        lemma_trichotomy(t, t);
        if p < i {
            assert(s[p].time.before(s[i].time));
        }
        assert(i == p);
        let r = s.remove(p);
        assert forall|a: int, b: int| 0 <= a < b < r.len() implies (#[trigger] r[a]).time.before(
            (#[trigger] r[b]).time,
        ) by {
            let oa = if a < p { a } else { a + 1 };
            let ob = if b < p { b } else { b + 1 };
            assert(r[a] == s[oa] && r[b] == s[ob]);
        }
        assert forall|a: int| 0 <= a < r.len() implies (#[trigger] r[a]).time.wf() by {
            let oa = if a < p { a } else { a + 1 };
            assert(r[a] == s[oa]);
        }
    }
}

/// Reading a track at a keyframe's own time starts from that keyframe: the
/// lookup gives keyframe `i` itself, or the pair that begins with it.
pub proof fn lemma_lookup_at_keyframe<V>(s: Seq<Keyframe<V>>, i: int)
    requires
        sorted(s),
        times_wf(s),
        0 <= i < s.len(),
    ensures
        lookup_spec(s, s[i].time) == KeyframeLookup::At(i as usize) || lookup_spec(s, s[i].time)
            == KeyframeLookup::Between(i as usize),
{
    let t = s[i].time;
    lemma_counts_split(s, t);
    lemma_trichotomy(t, t);
    if s.len() >= 2 {
        lemma_trichotomy(s[0].time, t);
        lemma_trichotomy(t, s[0].time);
        lemma_trichotomy(s.last().time, t);
        lemma_trichotomy(t, s.last().time);
        if i > 0 {
            assert(s[0].time.before(t));
        }
        if i < s.len() - 1 {
            assert(t.before(s[s.len() - 1].time));
            if i + 1 < s.len() {
                assert(t.before(s[i + 1].time));
            }
        }
    }
}

/// What a write leaves, a read finds, and removing it undoes it: after a
/// keyframe is set at a new time, the track holds it at its place in time
/// order, the lookup at its time starts from it, and removing that time gives
/// the keyframes back as they were.
pub proof fn lemma_set_then_remove<V>(s: Seq<Keyframe<V>>, kf: Keyframe<V>)
    requires
        sorted(s),
        times_wf(s),
        kf.time.wf(),
        !has_time(s, kf.time),
    ensures
        has_time(set_result(s, kf), kf.time),
        remove_result(set_result(s, kf), kf.time) == s,
        lookup_spec(set_result(s, kf), kf.time) == KeyframeLookup::At(count_before(s, kf.time) as usize)
            || lookup_spec(set_result(s, kf), kf.time) == KeyframeLookup::Between(
            count_before(s, kf.time) as usize,
        ),
{
    let t = kf.time;
    let p = count_before(s, t) as int;
    lemma_counts_split(s, t);
    lemma_set_sorted(s, kf);
    let r = set_result(s, kf);
    if p < s.len() && s[p].time == t {
        assert(has_time(s, t));
    }
    assert(r == s.insert(p, kf));
    assert(r[p].time == t);
    assert(has_time(r, t));
    lemma_counts_split(r, t);
    lemma_trichotomy(t, t);
    assert forall|k: int| 0 <= k < p implies (#[trigger] r[k]).time.before(t) by {
        assert(r[k] == s[k]);
    }
    if count_before(r, t) < p {
        let c = count_before(r, t) as int;
        assert(r[c].time.before(t));
    }
    assert(count_before(r, t) == p);
    assert(r.remove(p) =~= s);
    lemma_lookup_at_keyframe(r, p);
}

/// Setting a keyframe overwrites or adds exactly one: the keyframes stay in
/// strictly increasing time order, the track grows by one only when no
/// keyframe was at that time, afterwards exactly one keyframe lies at that
/// time and it is the new one, and every keyframe at another time stays, with
/// no other keyframe added.
pub proof fn lemma_set_effect<V>(s: Seq<Keyframe<V>>, kf: Keyframe<V>)
    requires
        sorted(s),
        times_wf(s),
        kf.time.wf(),
    ensures
        sorted(set_result(s, kf)),
        times_wf(set_result(s, kf)),
        forall|i: int, j: int|
            0 <= i < j < set_result(s, kf).len() && (#[trigger] set_result(s, kf)[i]).time == kf.time
                ==> (#[trigger] set_result(s, kf)[j]).time != kf.time,
        set_result(s, kf).len() == s.len() + if has_time(s, kf.time) { 0int } else { 1int },
        has_time(set_result(s, kf), kf.time),
        forall|i: int|
            0 <= i < set_result(s, kf).len() && (#[trigger] set_result(s, kf)[i]).time == kf.time
                ==> set_result(s, kf)[i] == kf,
        forall|i: int|
            0 <= i < s.len() && (#[trigger] s[i]).time != kf.time ==> set_result(s, kf).contains(s[i]),
        forall|j: int|
            0 <= j < set_result(s, kf).len() && (#[trigger] set_result(s, kf)[j]).time != kf.time
                ==> s.contains(set_result(s, kf)[j]),
{
    let t = kf.time;
    let p = count_before(s, t) as int;
    lemma_counts_split(s, t);
    lemma_set_sorted(s, kf);
    lemma_trichotomy(t, t);
    let r = set_result(s, kf);
    let replaced = p < s.len() && s[p].time == t;
    if has_time(s, t) {
        let i = choose|i: int| 0 <= i < s.len() && (#[trigger] s[i]).time == t;
        assert(!s[i].time.before(t));
        assert(i >= p);
        if i > p {
            assert(s[p].time.before(s[i].time));
        }
        assert(replaced);
    }
    if replaced {
        assert(has_time(s, t));
    }
    assert(r[p] == kf);
    assert(has_time(r, t));
    assert forall|i: int| 0 <= i < r.len() && (#[trigger] r[i]).time == t implies r[i] == kf by {
        if i < p {
            assert(r[i].time.before(r[p].time));
        } else if i > p {
            assert(r[p].time.before(r[i].time));
        }
    }
    assert forall|i: int| 0 <= i < s.len() && (#[trigger] s[i]).time != t implies r.contains(s[i]) by {
        if replaced {
            assert(i != p);
            assert(r[i] == s[i]);
        } else if i < p {
            assert(r[i] == s[i]);
        } else {
            assert(r[i + 1] == s[i]);
        }
    }
    assert forall|j: int| 0 <= j < r.len() && (#[trigger] r[j]).time != t implies s.contains(r[j]) by {
        assert(j != p);
        if replaced {
            assert(r[j] == s[j]);
        } else if j < p {
            assert(r[j] == s[j]);
        } else {
            assert(r[j] == s[j - 1]);
        }
    }
}

/// A track of keyframes for a single animated parameter. Keyframes are kept
/// sorted by time.
#[derive(Debug, Clone)]
pub struct KeyframeTrack<V> {
    /// Human-readable parameter name.
    pub name: String,
    keyframes: Vec<Keyframe<V>>,
}

impl<V> KeyframeTrack<V> {
    /// The keyframes, in time order.
    pub closed spec fn frames(&self) -> Seq<Keyframe<V>> {
        self.keyframes@
    }

    /// The parameter name.
    pub closed spec fn label(&self) -> Seq<char> {
        self.name@
    }

    /// The keyframes are sorted by time and their times well formed.
    pub open spec fn wf(&self) -> bool {
        sorted(self.frames()) && times_wf(self.frames())
    }

    /// Create a new empty keyframe track.
    pub fn new(name: String) -> (t: Self)
        ensures
            t.wf(),
            t.label() == name@,
            t.frames() == Seq::<Keyframe<V>>::empty(),
    {
        KeyframeTrack { name, keyframes: Vec::new() }
    }

    /// A track with a constant value: a single keyframe at time zero.
    pub fn constant(name: String, value: V) -> (t: Self)
        ensures
            t.wf(),
            t.label() == name@,
            t.frames().len() == 1,
            t.frames()[0].value == value,
            t.frames()[0].time.num() == 0,
    {
        let mut track = Self::new(name);
        track.set(RationalTime::zero(), value);
        track
    }

    /// Insert or update the keyframe at `time`; the keyframes stay in time
    /// order.
    pub fn set(&mut self, time: RationalTime, value: V)
        requires
            old(self).wf(),
            time.wf(),
        ensures
            final(self).wf(),
            final(self).label() == old(self).label(),
            final(self).frames() == set_result(old(self).frames(), Keyframe { time, value }),
    {
        let ghost s = self.keyframes@;
        let mut count: usize = 0;
        let mut i: usize = 0;
        while i < self.keyframes.len()
            invariant
                self.keyframes@ == s,
                i <= s.len(),
                count == count_before(s.take(i as int), time),
                count <= i,
            decreases s.len() - i,
        {
            assert(s.take(i + 1).drop_last() =~= s.take(i as int));
            if self.keyframes[i].time.lt_value(time) {
                count = count + 1;
            }
            i = i + 1;
        }
        assert(s.take(s.len() as int) =~= s);
        let kf = Keyframe { time, value };
        proof {
            lemma_set_sorted(s, kf);
        }
        if count < self.keyframes.len() && self.keyframes[count].time == time {
            self.keyframes.set(count, kf);
        } else {
            self.keyframes.insert(count, kf);
        }
    }

    /// Remove the keyframe at `time`; whether there was one.
    pub fn remove(&mut self, time: RationalTime) -> (removed: bool)
        requires
            old(self).wf(),
            time.wf(),
        ensures
            final(self).wf(),
            final(self).label() == old(self).label(),
            removed == has_time(old(self).frames(), time),
            final(self).frames() == remove_result(old(self).frames(), time),
    {
        let ghost s = self.keyframes@;
        let mut count: usize = 0;
        let mut i: usize = 0;
        while i < self.keyframes.len()
            invariant
                self.keyframes@ == s,
                i <= s.len(),
                count == count_before(s.take(i as int), time),
                count <= i,
            decreases s.len() - i,
        {
            assert(s.take(i + 1).drop_last() =~= s.take(i as int));
            if self.keyframes[i].time.lt_value(time) {
                count = count + 1;
            }
            i = i + 1;
        }
        assert(s.take(s.len() as int) =~= s);
        proof {
            lemma_remove_sorted(s, time);
        }
        if count < self.keyframes.len() && self.keyframes[count].time == time {
            proof {
                assert(has_time(s, time));
            }
            let _gone = self.keyframes.remove(count);
            true
        } else {
            false
        }
    }

    /// Which keyframes decide the value at `time`.
    pub fn lookup(&self, time: RationalTime) -> (r: KeyframeLookup)
        requires
            self.wf(),
            time.wf(),
        ensures
            r == lookup_spec(self.frames(), time),
            r matches KeyframeLookup::At(i) ==> i < self.frames().len(),
            r matches KeyframeLookup::Between(i) ==> {
                &&& i + 1 < self.frames().len()
                &&& self.frames()[i as int].time.at_or_before(time)
                &&& time.before(self.frames()[i + 1].time)
            },
    {
        let n = self.keyframes.len();
        if n == 0 {
            return KeyframeLookup::Empty;
        }
        if n == 1 {
            return KeyframeLookup::At(0);
        }
        if time.le_value(self.keyframes[0].time) {
            return KeyframeLookup::At(0);
        }
        if self.keyframes[n - 1].time.le_value(time) {
            return KeyframeLookup::At(n - 1);
        }
        let ghost s = self.keyframes@;
        let mut count: usize = 0;
        let mut i: usize = 0;
        while i < n
            invariant
                self.keyframes@ == s,
                n == s.len(),
                i <= n,
                count == count_at_or_before(s.take(i as int), time),
                count <= i,
            decreases n - i,
        {
            assert(s.take(i + 1).drop_last() =~= s.take(i as int));
            if self.keyframes[i].time.le_value(time) {
                count = count + 1;
            }
            i = i + 1;
        }
        assert(s.take(n as int) =~= s);
        proof {
            lemma_counts_split(s, time);
            lemma_trichotomy(time, s[0].time);
            lemma_trichotomy(s[n - 1].time, time);
            assert(s[0].time.at_or_before(time));
            assert(!s[n - 1].time.at_or_before(time));
            let c = count as int;
            assert(0 < c < n);
            lemma_trichotomy(s[c].time, time);
        }
        KeyframeLookup::Between(count - 1)
    }

    /// All keyframes, in time order.
    pub fn keyframes(&self) -> (r: &[Keyframe<V>])
        ensures
            r@ == self.frames(),
    {
        self.keyframes.as_slice()
    }

    /// Number of keyframes.
    pub fn len(&self) -> (n: usize)
        ensures
            n == self.frames().len(),
    {
        self.keyframes.len()
    }

    /// A one-line description: `KeyframeTrack(<name>, <n> keyframes)`.
    pub fn describe(&self) -> (s: String)
        ensures
            s@ == "KeyframeTrack("@ + self.label() + ", "@ + decimal(self.frames().len()) + " keyframes)"@,
    {
        proof {
            reveal_strlit("KeyframeTrack(");
            reveal_strlit(", ");
            reveal_strlit(" keyframes)");
        }
        let mut out = String::from_str("KeyframeTrack(");
        out.append(self.name.as_str());
        out.append(", ");
        push_decimal(&mut out, self.keyframes.len() as u64);
        out.append(" keyframes)");
        out
    }

    /// Whether the track has no keyframes.
    pub fn is_empty(&self) -> (b: bool)
        ensures
            b == (self.frames().len() == 0),
    {
        self.keyframes.len() == 0
    }

    /// Whether the track is animated: it has more than one keyframe.
    pub fn is_animated(&self) -> (b: bool)
        ensures
            b == (self.frames().len() > 1),
    {
        self.keyframes.len() > 1
    }

    /// The time range from the first keyframe to the last, or `None` for an
    /// empty track.
    pub fn time_range(&self) -> (r: Option<TimeRange>)
        requires
            self.wf(),
            self.frames().len() > 0 ==> self.frames().last().time.add_fits(self.frames()[0].time),
        ensures
            self.frames().len() == 0 ==> r is None,
            self.frames().len() > 0 ==> r == Some(
                TimeRange {
                    start: self.frames()[0].time,
                    duration: self.frames().last().time.difference(self.frames()[0].time),
                },
            ),
    {
        let n = self.keyframes.len();
        if n == 0 {
            return None;
        }
        let start = self.keyframes[0].time;
        let end = self.keyframes[n - 1].time;
        Some(TimeRange::from_start_end(start, end))
    }
}

} // verus!
