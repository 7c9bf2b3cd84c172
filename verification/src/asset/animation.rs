//! Skeletal animations: sampled poses, one per frame and joint.

use vstd::arithmetic::div_mod::lemma_mod_multiples_vanish;
use vstd::prelude::*;

use crate::asset::header::{
    check_magic, check_payload, magic_fault, payload_fault, version_of, viewed, ParseError,
};
use crate::asset::pose::{
    gte_pose_at, lerp_gte_pose_q12, lerp_pose_q12, lerped_gte_pose, lerped_pose, pose_at,
    read_gte_pose, read_pose, record_size, GteJointPose, JointPose, PoseLayout,
};
use crate::bytes::{le16, read_le16};

verus! {

/// The agreed numbers of the animation format.
#[derive(Clone, Copy, Debug)]
pub struct AnimationFormat {
    pub magic: [u8; 4],
    /// Version with shifted poses.
    pub version: u16,
    /// Version with wide poses.
    pub version_v1: u16,
    /// Version with packed poses.
    pub version_v3: u16,
    /// Version with crossed poses.
    pub version_v4: u16,
}

/// Bytes in the animation header.
pub const ANIMATION_HEADER_SIZE: usize = 8;

/// What an animation holds: for each frame, the poses of all joints.
pub struct AnimationView {
    pub joint_count: u16,
    pub frame_count: u16,
    pub sample_rate_hz: u16,
    pub layout: PoseLayout,
    pub translation_shift: u8,
    pub poses: Seq<u8>,
}

/// The pose layout of a version, or nothing for a version that is not read.
pub open spec fn layout_of(version: u16, format: AnimationFormat) -> Option<PoseLayout> {
    if version == format.version {
        Some(PoseLayout::Shifted)
    } else if version == format.version_v1 {
        Some(PoseLayout::Wide)
    } else if version == format.version_v3 {
        Some(PoseLayout::Packed)
    } else if version == format.version_v4 {
        Some(PoseLayout::Crossed)
    } else {
        None
    }
}

/// Where a pose lies in the table.
pub open spec fn pose_offset(animation: AnimationView, frame: int, joint: int) -> int {
    (frame * animation.joint_count + joint) * record_size(animation.layout)
}

/// The pose of a joint in a frame.
pub open spec fn stored_pose(animation: AnimationView, frame: int, joint: int) -> JointPose {
    pose_at(
        animation.poses,
        pose_offset(animation, frame, joint),
        animation.layout,
        animation.translation_shift,
    )
}

/// The compact pose of a joint in a frame.
pub open spec fn stored_gte_pose(animation: AnimationView, frame: int, joint: int) -> GteJointPose {
    gte_pose_at(
        animation.poses,
        pose_offset(animation, frame, joint),
        animation.layout,
        animation.translation_shift,
    )
}

/// The bytes that all poses take.
pub open spec fn table_size(joint_count: u16, frame_count: u16, layout: PoseLayout) -> int {
    (frame_count * joint_count) * record_size(layout)
}

/// The animation in a blob.
pub open spec fn animation_of(bytes: Seq<u8>, format: AnimationFormat) -> Result<
    AnimationView,
    ParseError,
> {
    if let Some(error) = magic_fault(bytes, format.magic@) {
        Err(error)
    } else if layout_of(version_of(bytes), format) is None {
        Err(ParseError::UnsupportedVersion(version_of(bytes)))
    } else if let Some(error) = payload_fault(bytes, ANIMATION_HEADER_SIZE as int) {
        Err(error)
    } else {
        let layout = layout_of(version_of(bytes), format)->0;
        let joint_count = le16(bytes, 12);
        let frame_count = le16(bytes, 14);
        let rate = le16(bytes, 16);
        let shift = if layout == PoseLayout::Wide {
            0
        } else {
            le16(bytes, 18)
        };
        let end = 20 + table_size(joint_count, frame_count, layout);
        if shift > 15 || joint_count == 0 || frame_count == 0 || rate == 0 {
            Err(ParseError::InvalidAnimationLayout)
        } else if end > bytes.len() {
            Err(ParseError::TableOverflow)
        } else if end != bytes.len() {
            Err(ParseError::InvalidAnimationLayout)
        } else {
            Ok(
                AnimationView {
                    joint_count,
                    frame_count,
                    sample_rate_hz: rate,
                    layout,
                    translation_shift: shift as u8,
                    poses: bytes.subrange(20, bytes.len() as int),
                },
            )
        }
    }
}

/// Frames in one turn of a loop. The last stored frame repeats the first.
pub open spec fn cycle_frames(animation: AnimationView) -> int {
    if animation.frame_count <= 2 {
        1
    } else {
        animation.frame_count - 1
    }
}

/// Two frames of an animation, and the Q12 weight of the second.
pub struct SampleView {
    pub animation: AnimationView,
    pub base_frame: int,
    pub next_frame: int,
    pub alpha: u16,
}

/// The frames around a looping Q12 phase.
pub open spec fn looped_sample(animation: AnimationView, phase: int) -> SampleView {
    let cycle = cycle_frames(animation);
    let base = (phase / 4096) % cycle;
    SampleView {
        animation,
        base_frame: base,
        next_frame: if base + 1 >= cycle {
            0
        } else {
            base + 1
        },
        alpha: (phase % 4096) as u16,
    }
}

/// The pose of a joint at a sample.
pub open spec fn sampled_pose(sample: SampleView, joint: u16) -> Option<JointPose> {
    let base = stored_pose(sample.animation, sample.base_frame, joint as int);
    if joint >= sample.animation.joint_count {
        None
    } else if sample.alpha == 0 || sample.base_frame == sample.next_frame {
        Some(base)
    } else {
        Some(
            lerped_pose(
                base,
                stored_pose(sample.animation, sample.next_frame, joint as int),
                sample.alpha,
            ),
        )
    }
}

/// The compact pose of a joint at a sample. Wide poses have none.
pub open spec fn sampled_gte_pose(sample: SampleView, joint: u16) -> Option<GteJointPose> {
    let base = stored_gte_pose(sample.animation, sample.base_frame, joint as int);
    if joint >= sample.animation.joint_count || sample.animation.layout == PoseLayout::Wide {
        None
    } else if sample.alpha == 0 || sample.base_frame == sample.next_frame {
        Some(base)
    } else {
        Some(
            lerped_gte_pose(
                base,
                stored_gte_pose(sample.animation, sample.next_frame, joint as int),
                sample.alpha,
            ),
        )
    }
}

/// Phase step of one tick, in Q12 frames.
pub open spec fn phase_step(animation: AnimationView, playback_hz: u16) -> int {
    animation.sample_rate_hz * 4096 / if playback_hz == 0 {
        1
    } else {
        playback_hz as int
    }
}

/// Phase at a tick.
pub open spec fn phase_at(animation: AnimationView, tick: int, playback_hz: u16) -> int {
    (tick * phase_step(animation, playback_hz)) % 0x1_0000_0000
}

/// Phase at a tick, with the step scaled by a Q8 speed.
pub open spec fn scaled_phase_at(
    animation: AnimationView,
    tick: int,
    playback_hz: u16,
    speed_q8: u16,
) -> int {
    (tick * ((phase_step(animation, playback_hz) * speed_q8 / 256) % 0x1_0000_0000))
        % 0x1_0000_0000
}

/// An animation borrowed from its blob.
#[derive(Clone, Copy, Debug)]
pub struct Animation<'a> {
    poses: &'a [u8],
    joint_count: u16,
    frame_count: u16,
    sample_rate_hz: u16,
    layout: PoseLayout,
    translation_shift: u8,
}

impl<'a> View for Animation<'a> {
    type V = AnimationView;

    closed spec fn view(&self) -> AnimationView {
        AnimationView {
            joint_count: self.joint_count,
            frame_count: self.frame_count,
            sample_rate_hz: self.sample_rate_hz,
            layout: self.layout,
            translation_shift: self.translation_shift,
            poses: self.poses@,
        }
    }
}

/// A stored pose ends inside the table.
proof fn pose_is_inside(animation: AnimationView, frame: int, joint: int)
    requires
        0 <= frame < animation.frame_count,
        0 <= joint < animation.joint_count,
    ensures
        0 <= pose_offset(animation, frame, joint),
        pose_offset(animation, frame, joint) + record_size(animation.layout) <= table_size(
            animation.joint_count,
            animation.frame_count,
            animation.layout,
        ),
        0 <= frame * animation.joint_count,
        frame * animation.joint_count + joint < animation.frame_count * animation.joint_count,
{
    let n = animation.joint_count as int;
    let m = animation.frame_count as int;
    let size = record_size(animation.layout);
    assert(0 <= frame * n && frame * n + n <= m * n) by (nonlinear_arith)
        requires
            0 <= frame < m,
            0 <= n,
    ;
    let index = frame * n + joint;
    assert(0 <= index * size && index * size + size <= (m * n) * size) by (nonlinear_arith)
        requires
            0 <= index,
            index + 1 <= m * n,
            0 < size,
    ;
}

impl<'a> Animation<'a> {
    /// The table holds every pose of every frame.
    #[verifier::type_invariant]
    closed spec fn wf(self) -> bool {
        &&& 0 < self.joint_count
        &&& 0 < self.frame_count
        &&& 0 < self.sample_rate_hz
        &&& self.translation_shift <= 15
        &&& self.poses@.len() == table_size(self.joint_count, self.frame_count, self.layout)
    }

    /// Parse a cooked animation.
    pub fn from_bytes(bytes: &'a [u8], format: &AnimationFormat) -> (result: Result<
        Self,
        ParseError,
    >)
        ensures
            viewed(result) == animation_of(bytes@, *format),
    {
        let version: u16 = check_magic(bytes, &format.magic)?;
        let (layout, size): (PoseLayout, u64) = if version == format.version {
            (PoseLayout::Shifted, 24)
        } else if version == format.version_v1 {
            (PoseLayout::Wide, 30)
        } else if version == format.version_v3 {
            (PoseLayout::Packed, 20)
        } else if version == format.version_v4 {
            (PoseLayout::Crossed, 16)
        } else {
            return Err(ParseError::UnsupportedVersion(version));
        };
        check_payload(bytes, ANIMATION_HEADER_SIZE)?;
        let joint_count: u16 = read_le16(bytes, 12);
        let frame_count: u16 = read_le16(bytes, 14);
        let sample_rate_hz: u16 = read_le16(bytes, 16);
        let shift: u16 = match layout {
            PoseLayout::Wide => 0,
            _ => read_le16(bytes, 18),
        };
        if shift > 15 || joint_count == 0 || frame_count == 0 || sample_rate_hz == 0 {
            return Err(ParseError::InvalidAnimationLayout);
        }
        assert(frame_count * joint_count <= 0xFFFF * 0xFFFF) by (nonlinear_arith)
            requires
                frame_count <= 0xFFFF,
                joint_count <= 0xFFFF,
        ;
        let count: u64 = frame_count as u64 * joint_count as u64;
        assert(count * size <= 0x1_0000_0000 * 30) by (nonlinear_arith)
            requires
                count <= 0x1_0000_0000,
                size <= 30,
        ;
        let end: u64 = 20 + count * size;
        if end > bytes.len() as u64 {
            return Err(ParseError::TableOverflow);
        }
        if end != bytes.len() as u64 {
            return Err(ParseError::InvalidAnimationLayout);
        }
        Ok(
            Animation {
                poses: &bytes[20..bytes.len()],
                joint_count,
                frame_count,
                sample_rate_hz,
                layout,
                translation_shift: shift as u8,
            },
        )
    }

    /// Poses per frame.
    pub fn joint_count(&self) -> (count: u16)
        ensures
            count == self@.joint_count,
    {
        self.joint_count
    }

    /// Stored frames.
    pub fn frame_count(&self) -> (count: u16)
        ensures
            count == self@.frame_count,
    {
        self.frame_count
    }

    /// Stored frames per second.
    pub fn sample_rate_hz(&self) -> (rate: u16)
        ensures
            rate == self@.sample_rate_hz,
    {
        self.sample_rate_hz
    }

    /// Bytes that one pose takes.
    pub fn pose_record_size(&self) -> (size: usize)
        ensures
            size == record_size(self@.layout),
    {
        match self.layout {
            PoseLayout::Wide => 30,
            PoseLayout::Shifted => 24,
            PoseLayout::Packed => 20,
            PoseLayout::Crossed => 16,
        }
    }

    /// Shift of the stored translations.
    pub fn translation_shift(&self) -> (shift: u8)
        ensures
            shift == self@.translation_shift,
    {
        self.translation_shift
    }

    /// Phase step of one tick at `playback_hz` ticks per second, in Q12 frames.
    pub fn phase_step_q12(&self, playback_hz: u16) -> (step: u32)
        ensures
            step == phase_step(self@, playback_hz),
    {
        let hz: u32 = if playback_hz == 0 {
            1
        } else {
            playback_hz as u32
        };
        (self.sample_rate_hz as u32 * 4096) / hz
    }

    /// Phase at a tick, modulo 2^32.
    pub fn phase_at_tick_q12(&self, playback_tick: u32, playback_hz: u16) -> (phase: u32)
        ensures
            phase == phase_at(self@, playback_tick as int, playback_hz),
    {
        playback_tick.wrapping_mul(self.phase_step_q12(playback_hz))
    }

    /// Phase at a tick, modulo 2^32, with the step scaled by a Q8 speed.
    pub fn phase_at_tick_scaled_q12(
        &self,
        playback_tick: u32,
        playback_hz: u16,
        speed_q8: u16,
    ) -> (phase: u32)
        ensures
            phase == scaled_phase_at(self@, playback_tick as int, playback_hz, speed_q8),
    {
        let step: u64 = self.phase_step_q12(playback_hz) as u64;
        assert(step * speed_q8 <= 0xFFFF_FFFF * 0xFFFF) by (nonlinear_arith)
            requires
                step <= 0xFFFF_FFFF,
                speed_q8 <= 0xFFFF,
        ;
        let scaled: u64 = (step * speed_q8 as u64) / 256;
        playback_tick.wrapping_mul((scaled % 0x1_0000_0000) as u32)
    }

    fn offset(&self, frame: u16, joint: u16) -> (at: usize)
        requires
            frame < self@.frame_count,
            joint < self@.joint_count,
        ensures
            at == pose_offset(self@, frame as int, joint as int),
            at + record_size(self@.layout) <= self@.poses.len(),
    {
        proof {
            use_type_invariant(self);
            pose_is_inside(self@, frame as int, joint as int);
            assert(self.poses@.len() == self.poses.len());
            let size = record_size(self@.layout);
            let index = frame * self.joint_count + joint;
            assert(index <= index * size) by (nonlinear_arith)
                requires
                    0 <= index,
                    1 <= size,
            ;
        }
        let index: usize = frame as usize * self.joint_count as usize + joint as usize;
        index * self.pose_record_size()
    }

    /// The pose of a joint in a frame.
    pub fn pose(&self, frame_index: u16, joint_index: u16) -> (pose: Option<JointPose>)
        ensures
            pose == if frame_index < self@.frame_count && joint_index < self@.joint_count {
                Some(stored_pose(self@, frame_index as int, joint_index as int))
            } else {
                None
            },
    {
        if frame_index >= self.frame_count || joint_index >= self.joint_count {
            return None;
        }
        Some(self.stored(frame_index, joint_index))
    }

    fn stored(&self, frame: u16, joint: u16) -> (pose: JointPose)
        requires
            frame < self@.frame_count,
            joint < self@.joint_count,
        ensures
            pose == stored_pose(self@, frame as int, joint as int),
    {
        proof {
            use_type_invariant(self);
        }
        read_pose(self.poses, self.offset(frame, joint), self.layout, self.translation_shift)
    }

    fn stored_gte(&self, frame: u16, joint: u16) -> (pose: GteJointPose)
        requires
            frame < self@.frame_count,
            joint < self@.joint_count,
            self@.layout != PoseLayout::Wide,
        ensures
            pose == stored_gte_pose(self@, frame as int, joint as int),
    {
        read_gte_pose(self.poses, self.offset(frame, joint), self.layout, self.translation_shift)
    }

    /// The pose of a joint at a looping Q12 phase.
    pub fn pose_looped_q12(&self, frame_q12: u32, joint_index: u16) -> (pose: Option<JointPose>)
        ensures
            pose == sampled_pose(looped_sample(self@, frame_q12 as int), joint_index),
    {
        let sample = self.looped_pose_sample_q12(frame_q12)?;
        sample.pose(joint_index)
    }

    /// The frames around a looping Q12 phase.
    pub fn looped_pose_sample_q12(&self, frame_q12: u32) -> (sample: Option<
        AnimationPoseSample<'a>,
    >)
        ensures
            sample is Some,
            (sample->0)@ == looped_sample(self@, frame_q12 as int),
    {
        proof {
            use_type_invariant(self);
        }
        let cycle: u32 = if self.frame_count <= 2 {
            1
        } else {
            self.frame_count as u32 - 1
        };
        let base: u32 = (frame_q12 / 4096) % cycle;
        let next: u32 = if base + 1 >= cycle {
            0
        } else {
            base + 1
        };
        Some(
            AnimationPoseSample {
                animation: *self,
                base_frame: base as u16,
                next_frame: next as u16,
                alpha_q12: (frame_q12 % 4096) as u16,
            },
        )
    }
}

/// Two frames of an animation and a weight, for all joints.
#[derive(Clone, Copy, Debug)]
pub struct AnimationPoseSample<'a> {
    animation: Animation<'a>,
    base_frame: u16,
    next_frame: u16,
    alpha_q12: u16,
}

impl<'a> View for AnimationPoseSample<'a> {
    type V = SampleView;

    closed spec fn view(&self) -> SampleView {
        SampleView {
            animation: self.animation@,
            base_frame: self.base_frame as int,
            next_frame: self.next_frame as int,
            alpha: self.alpha_q12,
        }
    }
}

impl<'a> AnimationPoseSample<'a> {
    /// Both frames exist, and the weight is below one.
    #[verifier::type_invariant]
    closed spec fn wf(self) -> bool {
        &&& self.base_frame < self.animation@.frame_count
        &&& self.next_frame < self.animation@.frame_count
        &&& self.alpha_q12 < 4096
    }

    /// The pose of a joint.
    pub fn pose(&self, joint_index: u16) -> (pose: Option<JointPose>)
        ensures
            pose == sampled_pose(self@, joint_index),
    {
        proof {
            use_type_invariant(self);
        }
        if joint_index >= self.animation.joint_count {
            return None;
        }
        let a: JointPose = self.animation.stored(self.base_frame, joint_index);
        if self.alpha_q12 == 0 || self.base_frame == self.next_frame {
            return Some(a);
        }
        let b: JointPose = self.animation.stored(self.next_frame, joint_index);
        Some(lerp_pose_q12(a, b, self.alpha_q12))
    }

    /// The compact pose of a joint; none if the poses are stored wide.
    pub fn gte_pose(&self, joint_index: u16) -> (pose: Option<GteJointPose>)
        ensures
            pose == sampled_gte_pose(self@, joint_index),
    {
        proof {
            use_type_invariant(self);
        }
        if joint_index >= self.animation.joint_count {
            return None;
        }
        if let PoseLayout::Wide = self.animation.layout {
            return None;
        }
        let a: GteJointPose = self.animation.stored_gte(self.base_frame, joint_index);
        if self.alpha_q12 == 0 || self.base_frame == self.next_frame {
            return Some(a);
        }
        let b: GteJointPose = self.animation.stored_gte(self.next_frame, joint_index);
        Some(lerp_gte_pose_q12(a, b, self.alpha_q12))
    }
}

/// The pose of a joint while a sample fades into a primary pose.
pub open spec fn blended_toward(
    sample: SampleView,
    alpha: u16,
    primary: JointPose,
    joint: u16,
) -> JointPose {
    match sampled_pose(sample, joint) {
        Some(from) => if alpha >= 4096 {
            primary
        } else {
            lerped_pose(from, primary, alpha)
        },
        None => primary,
    }
}

/// An outgoing sample that fades into a primary pose.
#[derive(Clone, Copy, Debug)]
pub struct ModelPoseBlend<'a> {
    /// The outgoing sample.
    pub sample: AnimationPoseSample<'a>,
    /// Q12 weight of the primary pose.
    pub alpha_q12: u16,
}

impl<'a> ModelPoseBlend<'a> {
    /// Blend the outgoing pose of a joint toward `primary`. With full weight,
    /// or where the outgoing animation lacks the joint, `primary` stays.
    pub fn blend_toward(&self, primary: JointPose, joint_index: u16) -> (pose: JointPose)
        ensures
            pose == blended_toward(self.sample@, self.alpha_q12, primary, joint_index),
    {
        if self.alpha_q12 >= 4096 {
            return primary;
        }
        match self.sample.pose(joint_index) {
            Some(from) => lerp_pose_q12(from, primary, self.alpha_q12),
            None => primary,
        }
    }
}

/// A whole phase inside one turn of the loop shows the stored frame.
pub proof fn whole_phase_shows_its_frame(animation: AnimationView, frame: int, joint: u16)
    requires
        0 <= frame < cycle_frames(animation),
        joint < animation.joint_count,
    ensures
        sampled_pose(looped_sample(animation, 4096 * frame), joint) == Some(
            stored_pose(animation, frame, joint as int),
        ),
{
    let cycle = cycle_frames(animation);
    assert(4096 * frame / 4096 == frame);
    vstd::arithmetic::div_mod::lemma_small_mod(frame as nat, cycle as nat);
}

/// A full turn of the loop brings the same frames and weight back.
pub proof fn loop_is_periodic(animation: AnimationView, phase: int)
    requires
        0 <= phase,
    ensures
        looped_sample(animation, phase + 4096 * cycle_frames(animation)) == looped_sample(
            animation,
            phase,
        ),
{
    let cycle = cycle_frames(animation);
    assert((phase + 4096 * cycle) / 4096 == phase / 4096 + cycle);
    assert((phase + 4096 * cycle) % 4096 == phase % 4096);
    lemma_mod_multiples_vanish(1, phase / 4096, cycle);
}

/// The last step of a loop blends into frame zero, not into the stored copy of
/// it at the end.
pub proof fn loop_closes_on_the_first_frame(animation: AnimationView, phase: int)
    requires
        0 <= phase,
        (phase / 4096) % cycle_frames(animation) == cycle_frames(animation) - 1,
    ensures
        looped_sample(animation, phase).next_frame == 0,
{
}

} // verus!
