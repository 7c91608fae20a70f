use vstd::prelude::*;
use crate::camera::{displacement, moved, Camera};
use crate::geometry::Vec3;
use crate::keys::{step_held, KeyAction, KeyEvent, KEY_ESCAPE};
use crate::mesh::INDEX_COUNT;

verus! {

/// Width and height of the area drawn into, in pixels.
#[derive(Clone, Copy, Debug, PartialEq, Eq, Structural)]
pub struct Viewport {
    pub width: i32,
    pub height: i32,
}

/// An input event of the window.
#[derive(Clone, Copy, Debug, PartialEq, Eq, Structural)]
pub enum Event {
    /// The framebuffer now has this size.
    Resize(Viewport),
    /// A key changed state.
    Key(KeyEvent),
    /// The window was asked to close.
    Close,
    /// Anything else; ignored.
    Other,
}

/// What the host does at the end of an iteration.
#[derive(Clone, Copy, Debug, PartialEq, Eq, Structural)]
pub enum Step {
    /// Clear `viewport`, draw the mesh seen from the camera pose, present.
    Draw(DrawCall),
    /// Leave the loop without drawing.
    Stop,
}

/// One frame's draw.
#[derive(Clone, Copy, Debug, PartialEq, Eq, Structural)]
pub struct DrawCall {
    pub viewport: Viewport,
    /// Camera position after this iteration's tick.
    pub eye: Vec3,
    /// Camera view direction.
    pub direction: Vec3,
    /// Whether the transform is uploaded: not where the shader has no such uniform.
    pub upload_mvp: bool,
    /// Number of mesh indices drawn.
    pub index_count: u32,
}

/// Location value that reports a uniform as absent.
pub const NO_UNIFORM: i32 = -1;

/// The event ends the loop: a close request, or Escape pressed.
pub open spec fn ends_loop(e: Event) -> bool {
    match e {
        Event::Close => true,
        Event::Key(k) => k == (KeyEvent { key: KEY_ESCAPE, action: KeyAction::Press }),
        _ => false,
    }
}

/// The viewport after one event: a resize sets it.
pub open spec fn step_viewport(v: Viewport, e: Event) -> Viewport {
    match e {
        Event::Resize(r) => r,
        _ => v,
    }
}

/// The held keys after one event: each key event but an Escape press is applied.
pub open spec fn step_keys(held: Set<i32>, e: Event) -> Set<i32> {
    match e {
        Event::Key(k) => if ends_loop(e) {
            held
        } else {
            step_held(held, k)
        },
        _ => held,
    }
}

/// The viewport after `events`: the size of the last resize, or `v` if none.
pub open spec fn viewport_after(v: Viewport, events: Seq<Event>) -> Viewport
    decreases events.len(),
{
    if events.len() == 0 {
        v
    } else {
        step_viewport(viewport_after(v, events.drop_last()), events.last())
    }
}

/// The held keys after `events`, each event applied in order.
pub open spec fn keys_after(held: Set<i32>, events: Seq<Event>) -> Set<i32>
    decreases events.len(),
{
    if events.len() == 0 {
        held
    } else {
        step_keys(keys_after(held, events.drop_last()), events.last())
    }
}

/// Some event of `events` ends the loop.
pub open spec fn any_ends_loop(events: Seq<Event>) -> bool {
    exists|i: int| 0 <= i < events.len() && ends_loop(events[i])
}

/// A resize takes effect in the iteration that receives it: after a batch
/// of events the viewport is the size given by the last resize among them.
pub proof fn lemma_last_resize_wins(v: Viewport, events: Seq<Event>, i: int, r: Viewport)
    requires
        0 <= i < events.len(),
        events[i] == Event::Resize(r),
        forall|j: int| i < j < events.len() ==> !(events[j] is Resize),
    ensures
        viewport_after(v, events) == r,
    decreases events.len(),
{
    if i < events.len() - 1 {
        let pre = events.drop_last();
        assert(pre[i] == events[i]);
        assert forall|j: int| i < j < pre.len() implies !(pre[j] is Resize) by {
            assert(pre[j] == events[j]);
        }
        lemma_last_resize_wins(v, pre, i, r);
    }
}

/// The frame loop's own state between iterations.
pub struct FrameLoop {
    pub viewport: Viewport,
    pub terminating: bool,
}

impl FrameLoop {
    /// A running loop that draws into `viewport`.
    pub fn new(viewport: Viewport) -> (r: FrameLoop)
        ensures
            r.viewport == viewport,
            !r.terminating,
    {
        FrameLoop { viewport, terminating: false }
    }

    /// Takes one event: a resize sets the viewport, a close request or an
    /// Escape press ends the loop, other key events go to the camera.
    pub fn handle(&mut self, camera: &mut Camera, e: Event)
        requires
            old(camera).wf(),
        ensures
            final(camera).wf(),
            final(self).viewport == step_viewport(old(self).viewport, e),
            final(self).terminating == (old(self).terminating || ends_loop(e)),
            final(camera).keys@ == step_keys(old(camera).keys@, e),
            final(camera).position == old(camera).position,
            final(camera).direction == old(camera).direction,
    {
        match e {
            Event::Resize(v) => {
                self.viewport = v;
            },
            Event::Key(k) => {
                if k.key == KEY_ESCAPE && k.action == KeyAction::Press {
                    self.terminating = true;
                } else {
                    camera.on_key(k);
                }
            },
            Event::Close => {
                self.terminating = true;
            },
            Event::Other => {},
        }
    }

    /// Takes all pending events, in order.
    pub fn drain(&mut self, camera: &mut Camera, events: &Vec<Event>)
        requires
            old(camera).wf(),
        ensures
            final(camera).wf(),
            final(self).viewport == viewport_after(old(self).viewport, events@),
            final(self).terminating == (old(self).terminating || any_ends_loop(events@)),
            final(camera).keys@ == keys_after(old(camera).keys@, events@),
            final(camera).position == old(camera).position,
            final(camera).direction == old(camera).direction,
    {
        let ghost v0 = self.viewport;
        let ghost t0 = self.terminating;
        let ghost k0 = camera.keys@;
        let mut i: usize = 0;
        assert(events@.take(0) =~= Seq::<Event>::empty());
        while i < events.len()
            invariant
                0 <= i <= events.len(),
                camera.wf(),
                self.viewport == viewport_after(v0, events@.take(i as int)),
                self.terminating == (t0 || any_ends_loop(events@.take(i as int))),
                camera.keys@ == keys_after(k0, events@.take(i as int)),
                camera.position == old(camera).position,
                camera.direction == old(camera).direction,
            decreases events.len() - i,
        {
            let e = events[i];
            let ghost pre = events@.take(i as int);
            let ghost post = events@.take(i as int + 1);
            proof {
                assert(post.drop_last() =~= pre);
                assert(post.last() == e);
            }
            self.handle(camera, e);
            proof {
                if any_ends_loop(post) {
                    let j = choose|j: int| 0 <= j < post.len() && ends_loop(post[j]);
                    if j < i {
                        assert(pre[j] == post[j]);
                    }
                }
                if any_ends_loop(pre) {
                    let j = choose|j: int| 0 <= j < pre.len() && ends_loop(pre[j]);
                    assert(pre[j] == post[j]);
                }
                if ends_loop(e) {
                    assert(post[i as int] == e);
                }
            }
            i = i + 1;
        }
        assert(events@.take(i as int) =~= events@);
    }

    /// One iteration: takes the pending events, then, unless the loop is
    /// ending, moves the camera by one tick and asks for a draw.
    pub fn iterate(&mut self, camera: &mut Camera, events: &Vec<Event>, mvp_location: i32) -> (r:
        Step)
        requires
            old(camera).wf(),
        ensures
            final(camera).wf(),
            final(self).viewport == viewport_after(old(self).viewport, events@),
            final(self).terminating == (old(self).terminating || any_ends_loop(events@)),
            final(camera).keys@ == keys_after(old(camera).keys@, events@),
            final(camera).direction == old(camera).direction,
            any_ends_loop(events@) ==> r == Step::Stop && final(camera).position == old(
                camera,
            ).position,
            r matches Step::Draw(c) ==> c.viewport == viewport_after(old(self).viewport, events@),
            final(self).terminating ==> r == Step::Stop && final(camera).position == old(
                camera,
            ).position,
            !final(self).terminating ==> r == Step::Draw(
                DrawCall {
                    viewport: final(self).viewport,
                    eye: final(camera).position,
                    direction: final(camera).direction,
                    upload_mvp: mvp_location != NO_UNIFORM,
                    index_count: INDEX_COUNT,
                },
            ) && final(camera).position == moved(
                old(camera).position,
                displacement(old(camera).direction, final(camera).keys@),
            ),
    {
        self.drain(camera, events);
        if self.terminating {
            Step::Stop
        } else {
            camera.advance();
            Step::Draw(
                DrawCall {
                    viewport: self.viewport,
                    eye: camera.position,
                    direction: camera.direction,
                    upload_mvp: mvp_location != NO_UNIFORM,
                    index_count: INDEX_COUNT,
                },
            )
        }
    }
}

} // verus!
