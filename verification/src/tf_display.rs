//! The transform tree display's choices: its properties, which frames are
//! shown, and which have gone stale.

use std::time::Duration;
use vstd::prelude::*;
use crate::assoc::{assoc_find, assoc_map, assoc_put, assoc_wf, lemma_assoc_map};
use crate::base_display::BaseDisplay;
use crate::bridge::nat_digits;
use crate::display::{DisplayId, DisplayStatus, PropertyValue};
use crate::frame::{duration_as_nanos, duration_from_nanos, duration_nanos, FrameId, Timestamp};
use crate::text::decimal_text;

verus! {

/// The bits of the single-precision number 0.3.
pub open spec fn default_axis_scale() -> u32 {
    0x3e99_999a
}

/// The bits of the double-precision number 0.3.
pub open spec fn default_axis_scale_f64() -> u64 {
    0x3fd3_3333_3333_3333
}

/// Transform display properties.
#[derive(Debug, Clone, Copy)]
pub struct TfProperties {
    /// Show frame names as labels
    pub show_names: bool,
    /// Show arrows connecting parent-child frames
    pub show_arrows: bool,
    /// Show coordinate axes at each frame
    pub show_axes: bool,
    /// Scale of axes (a single-precision number, as its bits)
    pub axis_scale: u32,
    /// Timeout for marking frames as stale
    pub frame_timeout: Duration,
    /// Update rate limit
    pub update_interval: Duration,
    /// Show all frames (vs only specific frames)
    pub show_all: bool,
}

impl Default for TfProperties {
    fn default() -> (r: Self)
        ensures
            r.show_names,
            r.show_arrows,
            r.show_axes,
            r.axis_scale == default_axis_scale(),
            duration_nanos(r.frame_timeout) == 5_000_000_000,
            duration_nanos(r.update_interval) == 100_000_000,
            r.show_all,
    {
        TfProperties {
            show_names: true,
            show_arrows: true,
            show_axes: true,
            axis_scale: 0x3e99_999a,
            frame_timeout: duration_from_nanos(5_000_000_000),
            update_interval: duration_from_nanos(100_000_000),
            show_all: true,
        }
    }
}

/// What the display keeps of a frame.
#[derive(Debug, Clone, Copy)]
pub struct FrameState {
    /// Whether this frame is visible
    pub visible: bool,
    /// Last update time
    pub last_seen: Timestamp,
    /// Is frame considered stale
    pub stale: bool,
}

/// The number of stale frames among `s`.
pub open spec fn stale_in(s: Seq<(String, FrameState)>) -> nat
    decreases s.len(),
{
    if s.len() == 0 {
        0
    } else {
        stale_in(s.drop_last()) + if s.last().1.stale {
            1nat
        } else {
            0nat
        }
    }
}

/// Transform tree display state.
#[derive(Debug)]
pub struct TfDisplay {
    base: BaseDisplay,
    props: TfProperties,
    frame_states: Vec<(String, FrameState)>,
}

impl TfDisplay {
    /// The base display state.
    pub closed spec fn spec_base(&self) -> BaseDisplay {
        self.base
    }

    /// The display properties.
    pub closed spec fn spec_props(&self) -> TfProperties {
        self.props
    }

    /// The base display state.
    pub fn base(&self) -> (r: &BaseDisplay)
        ensures
            *r == self.spec_base(),
    {
        &self.base
    }

    /// The display properties.
    pub fn props(&self) -> (r: &TfProperties)
        ensures
            *r == self.spec_props(),
    {
        &self.props
    }

    /// Replace the display properties.
    pub fn set_props(&mut self, props: TfProperties)
        ensures
            final(self).spec_props() == props,
            final(self).spec_base() == old(self).spec_base(),
            final(self).spec_frames() == old(self).spec_frames(),
            final(self).wf() == old(self).wf(),
    {
        self.props = props;
    }

    /// The state of each frame, by name.
    pub closed spec fn spec_frames(&self) -> Map<Seq<char>, FrameState> {
        assoc_map(self.frame_states@)
    }

    /// No frame is listed twice.
    pub closed spec fn wf(&self) -> bool {
        assoc_wf(self.frame_states@)
    }

    /// The number of stale frames.
    pub closed spec fn spec_stale_count(&self) -> nat {
        stale_in(self.frame_states@)
    }

    /// A display named `name`, with the default properties, knowing no frame.
    pub fn new(id: DisplayId, name: &str) -> (r: TfDisplay)
        ensures
            r.wf(),
            r.spec_frames() == Map::<Seq<char>, FrameState>::empty(),
            r.spec_base().name@ == name@,
            r.spec_base().display_type@ == "tf"@,
            r.spec_base().properties.wf(),
            r.spec_base().properties.spec_map() == Map::<Seq<char>, PropertyValue>::empty().insert(
                "show_names"@,
                PropertyValue::Bool(true),
            ).insert("show_arrows"@, PropertyValue::Bool(true)).insert(
                "show_axes"@,
                PropertyValue::Bool(true),
            ).insert("axis_scale"@, PropertyValue::Float(default_axis_scale_f64())),
            r.spec_props().show_names && r.spec_props().show_arrows && r.spec_props().show_axes && r.spec_props().show_all,
            r.spec_props().axis_scale == default_axis_scale(),
            duration_nanos(r.spec_props().frame_timeout) == 5_000_000_000,
            duration_nanos(r.spec_props().update_interval) == 100_000_000,
    {
        let mut base = BaseDisplay::new(id, name, "tf");
        base.add_property("show_names", PropertyValue::Bool(true));
        base.add_property("show_arrows", PropertyValue::Bool(true));
        base.add_property("show_axes", PropertyValue::Bool(true));
        base.add_property("axis_scale", PropertyValue::Float(0x3fd3_3333_3333_3333));
        TfDisplay { base, props: TfProperties::default(), frame_states: Vec::new() }
    }

    /// Show or hide `frame`; a frame not known yet is added, seen now.
    pub fn set_frame_visible(&mut self, frame: &FrameId, visible: bool)
        requires
            old(self).wf(),
        ensures
            final(self).wf(),
            final(self).spec_frames().dom() == old(self).spec_frames().dom().insert(frame@),
            final(self).spec_frames()[frame@].visible == visible,
            old(self).spec_frames().dom().contains(frame@) ==> final(self).spec_frames()[frame@]
                == (FrameState { visible, ..old(self).spec_frames()[frame@] }),
            !old(self).spec_frames().dom().contains(frame@) ==> !final(self).spec_frames()[frame@].stale,
            forall|k: Seq<char>|
                k != frame@ && old(self).spec_frames().dom().contains(k) ==> final(self).spec_frames()[k] == old(self).spec_frames()[k],
    {
        let state = match assoc_find(&self.frame_states, frame.as_str()) {
            Some(i) => FrameState { visible, ..self.frame_states[i].1 },
            None => FrameState { visible, last_seen: Timestamp::now(), stale: false },
        };
        assoc_put(&mut self.frame_states, frame.as_str(), state);
    }

    /// Whether `frame` is shown: frames not known are.
    pub fn is_frame_visible(&self, frame: &FrameId) -> (r: bool)
        requires
            self.wf(),
        ensures
            r == if self.spec_frames().dom().contains(frame@) {
                self.spec_frames()[frame@].visible
            } else {
                true
            },
    {
        match assoc_find(&self.frame_states, frame.as_str()) {
            Some(i) => self.frame_states[i].1.visible,
            None => true,
        }
    }

    /// Whether `frame` is drawn: always when all frames are shown, else when
    /// it is visible.
    pub fn should_draw(&self, frame: &FrameId) -> (r: bool)
        requires
            self.wf(),
        ensures
            r == (self.spec_props().show_all || if self.spec_frames().dom().contains(frame@) {
                self.spec_frames()[frame@].visible
            } else {
                true
            }),
    {
        self.props.show_all || self.is_frame_visible(frame)
    }

    /// Note that `frame` was drawn at `now`; a frame not known yet is added,
    /// visible.
    pub fn mark_seen(&mut self, frame: &FrameId, now: Timestamp)
        requires
            old(self).wf(),
        ensures
            final(self).wf(),
            final(self).spec_frames() == old(self).spec_frames().insert(
                frame@,
                if old(self).spec_frames().dom().contains(frame@) {
                    FrameState { last_seen: now, ..old(self).spec_frames()[frame@] }
                } else {
                    FrameState { visible: true, last_seen: now, stale: false }
                },
            ),
    {
        let state = match assoc_find(&self.frame_states, frame.as_str()) {
            Some(i) => FrameState { last_seen: now, ..self.frame_states[i].1 },
            None => FrameState { visible: true, last_seen: now, stale: false },
        };
        assoc_put(&mut self.frame_states, frame.as_str(), state);
    }

    /// Mark as stale every frame last seen longer ago than the frame timeout
    /// (in nanoseconds, cut to 64 bits), and the others as fresh.
    pub fn update_staleness(&mut self, now: Timestamp)
        requires
            old(self).wf(),
            forall|k: Seq<char>|
                #[trigger] old(self).spec_frames().dom().contains(k) ==> i64::MIN <= now.0
                    - old(self).spec_frames()[k].last_seen.0 <= i64::MAX,
        ensures
            final(self).wf(),
            final(self).spec_frames().dom() == old(self).spec_frames().dom(),
            forall|k: Seq<char>|
                #[trigger] final(self).spec_frames().dom().contains(k) ==> final(self).spec_frames()[k] == (FrameState {
                    stale: now.0 - old(self).spec_frames()[k].last_seen.0 > (duration_nanos(
                        old(self).spec_props().frame_timeout,
                    ) as i64),
                    ..old(self).spec_frames()[k]
                }),
            final(self).spec_props() == old(self).spec_props(),
    {
        proof {
            lemma_assoc_map(self.frame_states@);
        }
        let timeout = duration_as_nanos(&self.props.frame_timeout) as i64;
        let ghost s0 = self.frame_states@;
        assert forall|j: int| 0 <= j < s0.len() implies i64::MIN <= now.0 - (
        #[trigger] s0[j]).1.last_seen.0 <= i64::MAX by {
            assert(old(self).spec_frames().dom().contains(s0[j].0@));
            assert(old(self).spec_frames()[s0[j].0@] == s0[j].1);
        }
        let mut i: usize = 0;
        while i < self.frame_states.len()
            invariant
                i <= self.frame_states@.len(),
                self.frame_states@.len() == s0.len(),
                assoc_wf(s0),
                timeout == duration_nanos(old(self).spec_props().frame_timeout) as i64,
                self.props == old(self).spec_props(),
                s0 == old(self).frame_states@,
                forall|j: int|
                    0 <= j < s0.len() ==> i64::MIN <= now.0 - (#[trigger] s0[j]).1.last_seen.0
                        <= i64::MAX,
                forall|j: int| 0 <= j < s0.len() ==> (#[trigger] self.frame_states@[j]).0 == s0[j].0,
                forall|j: int|
                    0 <= j < i ==> (#[trigger] self.frame_states@[j]).1 == (FrameState {
                        stale: now.0 - s0[j].1.last_seen.0 > timeout,
                        ..s0[j].1
                    }),
                forall|j: int| i <= j < s0.len() ==> (#[trigger] self.frame_states@[j]).1 == s0[j].1,
            decreases s0.len() - i,
        {
            proof {
                lemma_assoc_map(s0);
                assert(old(self).spec_frames().dom().contains(s0[i as int].0@));
                assert(old(self).spec_frames()[s0[i as int].0@] == s0[i as int].1);
            }
            let age = now.0 - self.frame_states[i].1.last_seen.0;
            self.frame_states[i].1.stale = age > timeout;
            i = i + 1;
        }
        proof {
            let s1 = self.frame_states@;
            assert(assoc_wf(s1)) by {
                assert forall|a: int, b: int| 0 <= a < b < s1.len() implies s1[a].0@ != s1[b].0@ by {
                    assert(s1[a].0 == s0[a].0 && s1[b].0 == s0[b].0);
                }
            }
            lemma_assoc_map(s1);
            lemma_assoc_map(s0);
            assert forall|k: Seq<char>| #[trigger] assoc_map(s1).dom().contains(k) == assoc_map(
                s0,
            ).dom().contains(k) by {
                if assoc_map(s1).dom().contains(k) {
                    let j = choose|j: int| 0 <= j < s1.len() && s1[j].0@ == k;
                    assert(s0[j].0@ == k);
                }
                if assoc_map(s0).dom().contains(k) {
                    let j = choose|j: int| 0 <= j < s0.len() && s0[j].0@ == k;
                    assert(s1[j].0@ == k);
                }
            }
            assert(assoc_map(s1).dom() =~= assoc_map(s0).dom());
            assert forall|k: Seq<char>| #[trigger] assoc_map(s1).dom().contains(k) implies assoc_map(
                s1,
            )[k] == (FrameState {
                stale: now.0 - assoc_map(s0)[k].last_seen.0 > timeout,
                ..assoc_map(s0)[k]
            }) by {
                let j = choose|j: int| 0 <= j < s1.len() && s1[j].0@ == k;
                assert(s0[j].0@ == k);
                assert(assoc_map(s1)[s1[j].0@] == s1[j].1);
                assert(assoc_map(s0)[s0[j].0@] == s0[j].1);
            }
        }
    }

    /// The number of stale frames.
    pub fn stale_count(&self) -> (r: usize)
        ensures
            r == self.spec_stale_count(),
    {
        let mut n: usize = 0;
        let mut i: usize = 0;
        while i < self.frame_states.len()
            invariant
                i <= self.frame_states@.len(),
                n == stale_in(self.frame_states@.take(i as int)),
                n <= i,
            decreases self.frame_states@.len() - i,
        {
            proof {
                assert(self.frame_states@.take(i as int + 1).drop_last() =~= self.frame_states@.take(
                    i as int,
                ));
            }
            if self.frame_states[i].1.stale {
                n = n + 1;
            }
            i = i + 1;
        }
        assert(self.frame_states@.take(i as int) =~= self.frame_states@);
        n
    }

    /// Set the status after an update over `total_frames` frames: a warning
    /// naming the stale frames if there are any, else OK naming the frames.
    pub fn finish_update(&mut self, total_frames: usize)
        ensures
            old(self).spec_stale_count() > 0 ==> {
                &&& final(self).spec_base().status == DisplayStatus::Warning
                &&& final(self).spec_base().status_message matches Some(m) && m@ == nat_digits(
                    old(self).spec_stale_count(),
                ) + " stale frames"@
            },
            old(self).spec_stale_count() == 0 ==> {
                &&& final(self).spec_base().status == DisplayStatus::Active
                &&& final(self).spec_base().status_message matches Some(m) && m@ == nat_digits(
                    total_frames as nat,
                ) + " frames"@
            },
            final(self).spec_frames() == old(self).spec_frames(),
            final(self).spec_props() == old(self).spec_props(),
    {
        let stale = self.stale_count();
        if stale > 0 {
            let mut m = decimal_text(stale as u64);
            m.append(" stale frames");
            self.base.set_status(DisplayStatus::Warning, Some(m));
        } else {
            let mut m = decimal_text(total_frames as u64);
            m.append(" frames");
            self.base.set_status(DisplayStatus::Active, Some(m));
        }
    }

    /// Forget every frame.
    pub fn initialize(&mut self)
        ensures
            final(self).wf(),
            final(self).spec_frames() == Map::<Seq<char>, FrameState>::empty(),
            final(self).spec_props() == old(self).spec_props(),
    {
        self.frame_states = Vec::new();
    }

    /// Back to the default properties, knowing no frame.
    pub fn reset(&mut self)
        ensures
            final(self).wf(),
            final(self).spec_frames() == Map::<Seq<char>, FrameState>::empty(),
            final(self).spec_props().show_names && final(self).spec_props().show_arrows
                && final(self).spec_props().show_axes && final(self).spec_props().show_all,
            final(self).spec_props().axis_scale == default_axis_scale(),
            duration_nanos(final(self).spec_props().frame_timeout) == 5_000_000_000,
            duration_nanos(final(self).spec_props().update_interval) == 100_000_000,
    {
        self.props = TfProperties::default();
        self.frame_states = Vec::new();
    }
}

} // verus!
