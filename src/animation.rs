use vstd::prelude::*;

use crate::fixed::{lerp, lerp_raw};
use crate::matrix::{quat_in_unit_range, Quat, Vec3};

verus! {

/// How a channel's values are interpolated between keyframes.
#[derive(Clone, Copy, Debug, PartialEq, Eq, Structural)]
pub enum Interpolation {
    Linear,
    Step,
    CubicSpline,
    CatmullRomSpline,
}

/// The keyframe values of one channel: one property kind, one value per keyframe time.
#[derive(Debug)]
pub enum TransformationSet {
    Translations(Vec<Vec3>),
    Rotations(Vec<Quat>),
    Scales(Vec<Vec3>),
    MorphTargetWeights(Vec<i64>),
}

/// A value sampled from a channel, for the one property that the channel drives.
#[derive(Clone, Copy, Debug, PartialEq, Eq)]
pub enum Sampled {
    Translation(Vec3),
    Rotation(Quat),
    Scale(Vec3),
}

/// Channel features that the sampler does not evaluate.
#[derive(Clone, Copy, Debug, PartialEq, Eq, Structural)]
pub enum UnsupportedAnimationFeature {
    NonLinearInterpolation,
    MorphTargetWeights,
}

/// Reasons a channel cannot be built from its parts.
#[derive(Clone, Copy, Debug, PartialEq, Eq, Structural)]
pub enum ChannelError {
    /// The channel has no keyframe.
    NoKeyframes,
    /// Keyframe times decrease somewhere.
    UnorderedKeyframes,
    /// The number of values differs from the number of keyframe times.
    LengthMismatch,
    /// A rotation component lies outside `[-1, 1]`.
    RotationOutOfRange,
}

impl TransformationSet {
    pub open spec fn len(&self) -> nat {
        match self {
            TransformationSet::Translations(v) => v@.len(),
            TransformationSet::Rotations(v) => v@.len(),
            TransformationSet::Scales(v) => v@.len(),
            TransformationSet::MorphTargetWeights(v) => v@.len(),
        }
    }

    pub open spec fn rotations_in_range(&self) -> bool {
        match self {
            TransformationSet::Rotations(v) => forall|i: int|
                0 <= i < v@.len() ==> #[trigger] quat_in_unit_range(v@[i]),
            _ => true,
        }
    }
}

/// Keyframe times that never decrease.
pub open spec fn non_decreasing(s: Seq<u64>) -> bool {
    forall|i: int, j: int| 0 <= i <= j < s.len() ==> s[i] <= s[j]
}

/// The query time `t` brought into the keyframe range: taken modulo the last keyframe time
/// (when that is positive), then raised to the first keyframe time.
pub open spec fn wrap_time(inputs: Seq<u64>, t: u64) -> u64 {
    let last = inputs.last();
    let w = if last > 0 {
        (t % last) as u64
    } else {
        t
    };
    if w < inputs[0] {
        inputs[0]
    } else {
        w
    }
}

/// The first index at or after `from` whose keyframe time is not before `time`
/// (the length when there is none).
pub open spec fn search(inputs: Seq<u64>, time: u64, from: int) -> int
    decreases inputs.len() - from,
{
    if from < 0 || from >= inputs.len() {
        inputs.len() as int
    } else if time <= inputs[from] {
        from
    } else {
        search(inputs, time, from + 1)
    }
}

/// The upper bracketing key for the search result `found`.
pub open spec fn next_key_of(len: int, found: int) -> int {
    if found >= len {
        len - 1
    } else if found < 1 {
        if len - 1 < 1 { len - 1 } else { 1 }
    } else {
        found
    }
}

/// The lower bracketing key below `next`.
pub open spec fn prev_key_of(next: int) -> int {
    if next >= 1 {
        next - 1
    } else {
        0
    }
}

/// Where the search starts: the cursor, unless the time went back before the cursor's time.
pub open spec fn search_start(cursor_key: int, cursor_time: u64, time: u64) -> int {
    if time < cursor_time {
        0
    } else {
        cursor_key
    }
}

/// The fraction `(num, den)` of the way from key `prev` to key `next` at `time`;
/// `(0, 1)` when the two keys share one time.
pub open spec fn fraction(inputs: Seq<u64>, time: u64, prev: int, next: int) -> (int, int) {
    let den = inputs[next] - inputs[prev];
    if den <= 0 {
        (0, 1)
    } else if time < inputs[prev] {
        (0, den)
    } else if time - inputs[prev] > den {
        (den, den)
    } else {
        (time - inputs[prev], den)
    }
}

pub open spec fn lerp_vec3(a: Vec3, b: Vec3, num: int, den: int) -> Vec3 {
    Vec3 {
        x: lerp(a.x as int, b.x as int, num, den) as i64,
        y: lerp(a.y as int, b.y as int, num, den) as i64,
        z: lerp(a.z as int, b.z as int, num, den) as i64,
    }
}

/// Component-wise interpolation of two quaternions (not spherical).
pub open spec fn lerp_quat(a: Quat, b: Quat, num: int, den: int) -> Quat {
    Quat {
        x: lerp(a.x as int, b.x as int, num, den) as i64,
        y: lerp(a.y as int, b.y as int, num, den) as i64,
        z: lerp(a.z as int, b.z as int, num, den) as i64,
        w: lerp(a.w as int, b.w as int, num, den) as i64,
    }
}

/// The value of `set` between keys `prev` and `next` at the fraction `num / den`.
pub open spec fn interpolate(set: &TransformationSet, prev: int, next: int, num: int, den: int) -> Result<
    Sampled,
    UnsupportedAnimationFeature,
> {
    match set {
        TransformationSet::Translations(v) => Ok(
            Sampled::Translation(lerp_vec3(v@[prev], v@[next], num, den)),
        ),
        TransformationSet::Rotations(v) => Ok(
            Sampled::Rotation(lerp_quat(v@[prev], v@[next], num, den)),
        ),
        TransformationSet::Scales(v) => Ok(Sampled::Scale(lerp_vec3(v@[prev], v@[next], num, den))),
        TransformationSet::MorphTargetWeights(_) => Err(
            UnsupportedAnimationFeature::MorphTargetWeights,
        ),
    }
}

/// The result of sampling keyframes `inputs` and values `set` at query time `t` with
/// the search starting at `start`.
pub open spec fn sample_from(
    inputs: Seq<u64>,
    set: &TransformationSet,
    interpolation: Interpolation,
    t: u64,
    start: int,
) -> Result<Sampled, UnsupportedAnimationFeature> {
    if interpolation != Interpolation::Linear {
        Err(UnsupportedAnimationFeature::NonLinearInterpolation)
    } else {
        let time = wrap_time(inputs, t);
        let next = next_key_of(inputs.len() as int, search(inputs, time, start));
        let prev = prev_key_of(next);
        let (num, den) = fraction(inputs, time, prev, next);
        interpolate(set, prev, next, num, den)
    }
}

/// The result of sampling at `t`, as a function of the keyframes alone.
pub open spec fn sample_at(
    inputs: Seq<u64>,
    set: &TransformationSet,
    interpolation: Interpolation,
    t: u64,
) -> Result<Sampled, UnsupportedAnimationFeature> {
    sample_from(inputs, set, interpolation, t, 0)
}

proof fn lemma_search_bounds(inputs: Seq<u64>, time: u64, from: int)
    requires
        0 <= from <= inputs.len(),
    ensures
        from <= search(inputs, time, from) <= inputs.len(),
        forall|j: int| from <= j < search(inputs, time, from) ==> inputs[j] < time,
        search(inputs, time, from) < inputs.len() ==> time <= inputs[search(inputs, time, from)],
    decreases inputs.len() - from,
{
    if from < inputs.len() && !(time <= inputs[from]) {
        lemma_search_bounds(inputs, time, from + 1);
    }
}

proof fn lemma_search_skip(inputs: Seq<u64>, time: u64, k: int, p: int)
    requires
        0 <= k <= p <= inputs.len(),
        forall|j: int| k <= j < p ==> inputs[j] < time,
    ensures
        search(inputs, time, k) == search(inputs, time, p),
    decreases p - k,
{
    if k < p {
        lemma_search_skip(inputs, time, k + 1, p);
    }
}

/// Sampling through the cursor gives what a search from the first keyframe gives: the
/// cursor changes the cost of the search, never its result.
pub proof fn lemma_cursor_sample_is_fresh(ch: &Channel, t: u64)
    requires
        ch.wf(),
    ensures
        ch.cursor_sample(t) == sample_at(ch.inputs(), ch.transformations(), ch.interpolation(), t),
{
    let time = wrap_time(ch.inputs(), t);
    if !(time < ch.cursor_time()) {
        lemma_search_skip(ch.inputs(), time, 0, ch.cursor_key());
    }
}

/// The value that `set` holds at key `k`.
pub open spec fn value_at_key(set: &TransformationSet, k: int) -> Result<
    Sampled,
    UnsupportedAnimationFeature,
> {
    match set {
        TransformationSet::Translations(v) => Ok(Sampled::Translation(v@[k])),
        TransformationSet::Rotations(v) => Ok(Sampled::Rotation(v@[k])),
        TransformationSet::Scales(v) => Ok(Sampled::Scale(v@[k])),
        TransformationSet::MorphTargetWeights(_) => Err(
            UnsupportedAnimationFeature::MorphTargetWeights,
        ),
    }
}

proof fn lemma_interpolate_ends(set: &TransformationSet, prev: int, next: int, den: int)
    requires
        den > 0,
    ensures
        interpolate(set, prev, next, 0, den) == value_at_key(set, prev),
        interpolate(set, prev, next, den, den) == value_at_key(set, next),
{
    match set {
        TransformationSet::Translations(v) | TransformationSet::Scales(v) => {
            let (a, b) = (v@[prev], v@[next]);
            crate::fixed::lemma_lerp_ends(a.x as int, b.x as int, den);
            crate::fixed::lemma_lerp_ends(a.y as int, b.y as int, den);
            crate::fixed::lemma_lerp_ends(a.z as int, b.z as int, den);
            assert(lerp_vec3(a, b, 0, den) == a);
            assert(lerp_vec3(a, b, den, den) == b);
        },
        TransformationSet::Rotations(v) => {
            let (a, b) = (v@[prev], v@[next]);
            crate::fixed::lemma_lerp_ends(a.x as int, b.x as int, den);
            crate::fixed::lemma_lerp_ends(a.y as int, b.y as int, den);
            crate::fixed::lemma_lerp_ends(a.z as int, b.z as int, den);
            crate::fixed::lemma_lerp_ends(a.w as int, b.w as int, den);
            assert(lerp_quat(a, b, 0, den) == a);
            assert(lerp_quat(a, b, den, den) == b);
        },
        TransformationSet::MorphTargetWeights(_) => {},
    }
}

/// Sampling with linear interpolation exactly at a keyframe time gives that keyframe's value,
/// with no interpolation error. The keyframe is the first one at its time, and its time lies
/// before the last keyframe time, so that wrapping leaves it in place.
pub proof fn lemma_keyframe_exact(ch: &Channel, k: int)
    requires
        ch.wf(),
        ch.interpolation() == Interpolation::Linear,
        0 <= k < ch.inputs().len(),
        ch.inputs()[k] < ch.inputs().last(),
        forall|j: int| 0 <= j < k ==> ch.inputs()[j] < ch.inputs()[k],
    ensures
        sample_at(ch.inputs(), ch.transformations(), ch.interpolation(), ch.inputs()[k])
            == value_at_key(ch.transformations(), k),
{
    let inputs = ch.inputs();
    let t = inputs[k];
    let last = inputs.last();
    vstd::arithmetic::div_mod::lemma_small_mod(t as nat, last as nat);
    assert(wrap_time(inputs, t) == t);
    lemma_search_skip(inputs, t, 0, k);
    assert(search(inputs, t, 0) == k);
    let next = next_key_of(inputs.len() as int, k);
    let prev = prev_key_of(next);
    if k == 0 {
        if inputs.len() >= 2 {
            let d = inputs[1] - inputs[0];
            lemma_interpolate_ends(ch.transformations(), prev, next, if d > 0 { d } else { 1 });
        }
    } else {
        assert(inputs[prev] < inputs[k]);
        lemma_interpolate_ends(ch.transformations(), prev, next, inputs[next] - inputs[prev]);
    }
}

/// Sampling is periodic in the last keyframe time: a query one period later gives the
/// same result and leaves the same cursor.
pub proof fn lemma_wrap_around(ch: &Channel, t: u64)
    requires
        ch.wf(),
        ch.inputs().last() > 0,
        t + ch.inputs().last() <= u64::MAX,
    ensures
        sample_at(
            ch.inputs(),
            ch.transformations(),
            ch.interpolation(),
            (t + ch.inputs().last()) as u64,
        ) == sample_at(ch.inputs(), ch.transformations(), ch.interpolation(), t),
        ch.cursor_after((t + ch.inputs().last()) as u64) == ch.cursor_after(t),
{
    let last = ch.inputs().last() as int;
    vstd::arithmetic::div_mod::lemma_mod_add_multiples_vanish(t as int, last);
    assert(wrap_time(ch.inputs(), (t + last) as u64) == wrap_time(ch.inputs(), t));
}

/// Only the phase of the query time within the last keyframe time matters: two times with
/// the same remainder give the same result and leave the same cursor.
pub proof fn lemma_same_phase(ch: &Channel, t1: u64, t2: u64)
    requires
        ch.wf(),
        ch.inputs().last() > 0,
        t1 % ch.inputs().last() == t2 % ch.inputs().last(),
    ensures
        sample_at(ch.inputs(), ch.transformations(), ch.interpolation(), t1) == sample_at(
            ch.inputs(),
            ch.transformations(),
            ch.interpolation(),
            t2,
        ),
        ch.cursor_after(t1) == ch.cursor_after(t2),
{
    assert(wrap_time(ch.inputs(), t1) == wrap_time(ch.inputs(), t2));
}

fn search_exec(inputs: &Vec<u64>, time: u64, start: usize) -> (r: usize)
    requires
        start <= inputs@.len(),
    ensures
        r == search(inputs@, time, start as int),
{
    let mut k = start;
    while k < inputs.len() && time > inputs[k]
        invariant
            start <= k <= inputs@.len(),
            search(inputs@, time, k as int) == search(inputs@, time, start as int),
        decreases inputs@.len() - k,
    {
        k += 1;
    }
    k
}

fn lerp_vec3_exec(a: Vec3, b: Vec3, num: u64, den: u64) -> (r: Vec3)
    requires
        den > 0,
        num <= den,
    ensures
        r == lerp_vec3(a, b, num as int, den as int),
{
    Vec3 { x: lerp_raw(a.x, b.x, num, den), y: lerp_raw(a.y, b.y, num, den), z: lerp_raw(a.z, b.z, num, den) }
}

fn lerp_quat_exec(a: Quat, b: Quat, num: u64, den: u64) -> (r: Quat)
    requires
        den > 0,
        num <= den,
    ensures
        r == lerp_quat(a, b, num as int, den as int),
        quat_in_unit_range(a) && quat_in_unit_range(b) ==> quat_in_unit_range(r),
{
    Quat {
        x: lerp_raw(a.x, b.x, num, den),
        y: lerp_raw(a.y, b.y, num, den),
        z: lerp_raw(a.z, b.z, num, den),
        w: lerp_raw(a.w, b.w, num, den),
    }
}

fn rotations_in_range_exec(v: &Vec<Quat>) -> (r: bool)
    ensures
        r == forall|i: int| 0 <= i < v@.len() ==> #[trigger] quat_in_unit_range(v@[i]),
{
    let mut i: usize = 0;
    while i < v.len()
        invariant
            0 <= i <= v@.len(),
            forall|j: int| 0 <= j < i ==> #[trigger] quat_in_unit_range(v@[j]),
        decreases v@.len() - i,
    {
        let q = v[i];
        if !(-crate::fixed::ONE <= q.x && q.x <= crate::fixed::ONE && -crate::fixed::ONE <= q.y
            && q.y <= crate::fixed::ONE && -crate::fixed::ONE <= q.z && q.z <= crate::fixed::ONE
            && -crate::fixed::ONE <= q.w && q.w <= crate::fixed::ONE) {
            assert(!quat_in_unit_range(v@[i as int]));
            return false;
        }
        i += 1;
    }
    true
}

fn non_decreasing_exec(s: &Vec<u64>) -> (r: bool)
    ensures
        r == non_decreasing(s@),
{
    let mut k: usize = 1;
    if s.len() == 0 {
        return true;
    }
    while k < s.len()
        invariant
            1 <= k <= s@.len(),
            forall|i: int, j: int| 0 <= i <= j < k ==> s@[i] <= s@[j],
        decreases s@.len() - k,
    {
        if s[k - 1] > s[k] {
            assert(!non_decreasing(s@)) by {
                assert(s@[k - 1] > s@[k as int]);
            }
            return false;
        }
        k += 1;
    }
    true
}

impl TransformationSet {
    pub fn len_exec(&self) -> (r: usize)
        ensures
            r == self.len(),
    {
        match self {
            TransformationSet::Translations(v) => v.len(),
            TransformationSet::Rotations(v) => v.len(),
            TransformationSet::Scales(v) => v.len(),
            TransformationSet::MorphTargetWeights(v) => v.len(),
        }
    }
}

/// A keyframe track for one property of one node, with its sampling cursor.
#[derive(Debug)]
pub struct Channel {
    node_index: usize,
    inputs: Vec<u64>,
    transformations: TransformationSet,
    interpolation: Interpolation,
    previous_key: usize,
    previous_time: u64,
}

impl Channel {
    /// The source index of the node that the channel drives.
    pub closed spec fn target(&self) -> usize {
        self.node_index
    }

    pub fn node_index(&self) -> (r: usize)
        ensures
            r == self.target(),
    {
        self.node_index
    }

    pub closed spec fn inputs(&self) -> Seq<u64> {
        self.inputs@
    }

    pub closed spec fn transformations(&self) -> &TransformationSet {
        &self.transformations
    }

    pub closed spec fn interpolation(&self) -> Interpolation {
        self.interpolation
    }

    pub closed spec fn cursor_key(&self) -> int {
        self.previous_key as int
    }

    pub closed spec fn cursor_time(&self) -> u64 {
        self.previous_time
    }

    /// Keyframes are present and ordered, one value for each, rotations in range, and every
    /// key before the cursor lies before the cursor's time.
    pub open spec fn wf(&self) -> bool {
        &&& self.inputs().len() >= 1
        &&& non_decreasing(self.inputs())
        &&& self.transformations().len() == self.inputs().len()
        &&& self.transformations().rotations_in_range()
        &&& 0 <= self.cursor_key() < self.inputs().len()
        &&& forall|j: int|
            0 <= j < self.cursor_key() ==> #[trigger] self.inputs()[j] < self.cursor_time()
    }

    /// Builds a channel with its cursor at the first keyframe, after checking its parts.
    pub fn new(
        node_index: usize,
        inputs: Vec<u64>,
        transformations: TransformationSet,
        interpolation: Interpolation,
    ) -> (r: Result<Channel, ChannelError>)
        ensures
            inputs@.len() == 0 ==> r == Err::<Channel, ChannelError>(ChannelError::NoKeyframes),
            inputs@.len() > 0 && !non_decreasing(inputs@) ==> r == Err::<Channel, ChannelError>(
                ChannelError::UnorderedKeyframes,
            ),
            inputs@.len() > 0 && non_decreasing(inputs@) && transformations.len() != inputs@.len()
                ==> r == Err::<Channel, ChannelError>(ChannelError::LengthMismatch),
            inputs@.len() > 0 && non_decreasing(inputs@) && transformations.len() == inputs@.len()
                && !transformations.rotations_in_range() ==> r == Err::<Channel, ChannelError>(
                ChannelError::RotationOutOfRange,
            ),
            r is Ok <==> (inputs@.len() > 0 && non_decreasing(inputs@) && transformations.len()
                == inputs@.len() && transformations.rotations_in_range()),
            r matches Ok(c) ==> {
                &&& c.wf()
                &&& c.target() == node_index
                &&& c.inputs() == inputs@
                &&& *c.transformations() == transformations
                &&& c.interpolation() == interpolation
                &&& c.cursor_key() == 0
                &&& c.cursor_time() == 0
            },
    {
        if inputs.len() == 0 {
            return Err(ChannelError::NoKeyframes);
        }
        if !non_decreasing_exec(&inputs) {
            return Err(ChannelError::UnorderedKeyframes);
        }
        if transformations.len_exec() != inputs.len() {
            return Err(ChannelError::LengthMismatch);
        }
        if let TransformationSet::Rotations(v) = &transformations {
            if !rotations_in_range_exec(v) {
                return Err(ChannelError::RotationOutOfRange);
            }
        }
        Ok(
            Channel {
                node_index,
                inputs,
                transformations,
                interpolation,
                previous_key: 0,
                previous_time: 0,
            },
        )
    }

    /// Samples the channel at time `seconds` (in the keyframes' time unit), moving the cursor.
    /// Non-linear interpolation and morph-target weights are reported, and leave the cursor
    /// where it was.
    pub fn sample(&mut self, seconds: u64) -> (r: Result<Sampled, UnsupportedAnimationFeature>)
        requires
            old(self).wf(),
        ensures
            final(self).wf(),
            r == old(self).cursor_sample(seconds),
            r == sample_at(
                old(self).inputs(),
                old(self).transformations(),
                old(self).interpolation(),
                seconds,
            ),
            final(self).target() == old(self).target(),
            final(self).inputs() == old(self).inputs(),
            final(self).transformations() == old(self).transformations(),
            final(self).interpolation() == old(self).interpolation(),
            r is Err ==> final(self).cursor_key() == old(self).cursor_key()
                && final(self).cursor_time() == old(self).cursor_time(),
            r is Ok ==> final(self).cursor_time() == wrap_time(old(self).inputs(), seconds),
            (final(self).cursor_key(), final(self).cursor_time()) == old(self).cursor_after(seconds),
            r matches Ok(Sampled::Rotation(q)) ==> quat_in_unit_range(q),
    {
        proof {
            lemma_cursor_sample_is_fresh(self, seconds);
        }
        if self.interpolation != Interpolation::Linear {
            return Err(UnsupportedAnimationFeature::NonLinearInterpolation);
        }
        if let TransformationSet::MorphTargetWeights(_) = &self.transformations {
            return Err(UnsupportedAnimationFeature::MorphTargetWeights);
        }
        let len = self.inputs.len();
        let last = self.inputs[len - 1];
        let mut time = if last > 0 {
            seconds % last
        } else {
            seconds
        };
        if time < self.inputs[0] {
            time = self.inputs[0];
        }
        assert(time == wrap_time(self.inputs@, seconds));
        proof {
            if !(time < self.previous_time) {
                lemma_search_skip(self.inputs@, time, 0, self.previous_key as int);
            }
        }
        let start = if time < self.previous_time {
            0
        } else {
            self.previous_key
        };
        let found = search_exec(&self.inputs, time, start);
        proof {
            lemma_search_bounds(self.inputs@, time, start as int);
        }
        let next: usize = if found >= len {
            len - 1
        } else if found < 1 {
            if len - 1 < 1 {
                len - 1
            } else {
                1
            }
        } else {
            found
        };
        let prev: usize = if next >= 1 {
            next - 1
        } else {
            0
        };
        let lo = self.inputs[prev];
        let hi = self.inputs[next];
        let (num, den): (u64, u64) = if hi <= lo {
            (0, 1)
        } else if time < lo {
            (0, hi - lo)
        } else if time - lo > hi - lo {
            (hi - lo, hi - lo)
        } else {
            (time - lo, hi - lo)
        };
        let r = match &self.transformations {
            TransformationSet::Translations(v) => Ok(
                Sampled::Translation(lerp_vec3_exec(v[prev], v[next], num, den)),
            ),
            TransformationSet::Rotations(v) => Ok(
                Sampled::Rotation(lerp_quat_exec(v[prev], v[next], num, den)),
            ),
            TransformationSet::Scales(v) => Ok(
                Sampled::Scale(lerp_vec3_exec(v[prev], v[next], num, den)),
            ),
            TransformationSet::MorphTargetWeights(_) => Err(
                UnsupportedAnimationFeature::MorphTargetWeights,
            ),
        };
        self.previous_key = prev;
        self.previous_time = time;
        r
    }

    /// The cursor the channel holds after sampling at `t`: the wrapped time, and the key
    /// below the first key not before it; unchanged when the channel cannot be sampled.
    pub open spec fn cursor_after(&self, t: u64) -> (int, u64) {
        if sample_at(self.inputs(), self.transformations(), self.interpolation(), t) is Err {
            (self.cursor_key(), self.cursor_time())
        } else {
            let time = wrap_time(self.inputs(), t);
            let next = next_key_of(self.inputs().len() as int, search(self.inputs(), time, 0));
            (prev_key_of(next), time)
        }
    }

    /// The result of the next sampling at `t`, with the search starting at the cursor.
    pub open spec fn cursor_sample(&self, t: u64) -> Result<Sampled, UnsupportedAnimationFeature> {
        let start = search_start(self.cursor_key(), self.cursor_time(), wrap_time(self.inputs(), t));
        sample_from(self.inputs(), self.transformations(), self.interpolation(), t, start)
    }
}

} // verus!
