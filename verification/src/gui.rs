//! GUI bookkeeping: which interface is active, and the health-bar vertex
//! update of the test interface.  An interface here is its CPU-side vertex
//! and index data; uploading buffers and drawing is the renderer's
//! business.

use vstd::pervasive::VecAdditionalExecFns;
use vstd::prelude::*;

verus! {

/// One GUI vertex: screen position (x, y, z) and texture coordinates
/// (r, s), all fixed point.
#[derive(Clone, Copy, PartialEq, Eq, Structural, Debug)]
pub struct Vertex {
    pub x: i64,
    pub y: i64,
    pub z: i64,
    pub r: i64,
    pub s: i64,
}

/// A 2D interface: its vertex and index streams.
pub struct Gui {
    pub vertices: Vec<Vertex>,
    pub indices: Vec<u32>,
}

impl Gui {
    /// An empty interface.
    pub fn new() -> (r: Self)
        ensures
            r.vertices@.len() == 0,
            r.indices@.len() == 0,
    {
        Gui { vertices: Vec::new(), indices: Vec::new() }
    }

    /// Appends one vertex.
    pub fn push_vertex(&mut self, v: Vertex)
        ensures
            final(self).vertices@ == old(self).vertices@.push(v),
            final(self).indices@ == old(self).indices@,
    {
        self.vertices.push(v);
    }

    /// Overwrites the vertex window starting at `offset` with `data`,
    /// leaving everything around it unchanged.
    pub fn update_vertex(&mut self, offset: usize, data: &Vec<Vertex>)
        requires
            offset + data.len() <= old(self).vertices.len(),
        ensures
            final(self).vertices@.len() == old(self).vertices@.len(),
            forall|k: int|
                0 <= k < old(self).vertices@.len() ==> #[trigger] final(self).vertices@[k] == (
                if offset <= k < offset + data@.len() {
                    data@[k - offset]
                } else {
                    old(self).vertices@[k]
                }),
            final(self).indices@ == old(self).indices@,
    {
        for i in 0..data.len()
            invariant
                offset + data.len() <= self.vertices@.len(),
                self.vertices@.len() <= usize::MAX,
                self.vertices@.len() == old(self).vertices@.len(),
                self.indices@ == old(self).indices@,
                forall|k: int|
                    0 <= k < self.vertices@.len() ==> #[trigger] self.vertices@[k] == (
                    if offset <= k < offset + i {
                        data@[k - offset]
                    } else {
                        old(self).vertices@[k]
                    }),
        {
            self.vertices.set(offset + i, data[i]);
        }
    }

    /// A copy of the vertex stream.
    pub fn vertices_clone(&self) -> (r: Vec<Vertex>)
        ensures
            r@ == self.vertices@,
    {
        let mut r: Vec<Vertex> = Vec::new();
        for i in 0..self.vertices.len()
            invariant
                r@ =~= self.vertices@.take(i as int),
        {
            r.push(self.vertices[i]);
            proof {
                assert(r@ =~= self.vertices@.take(i as int + 1));
            }
        }
        proof {
            assert(self.vertices@.take(self.vertices@.len() as int) =~= self.vertices@);
        }
        r
    }
}

/// Which interface is on screen.
#[derive(Clone, Copy, PartialEq, Eq, Structural, Debug)]
pub enum ActiveInterface {
    NONE,
    TEST,
    PAUSE,
    HELP,
}

/// The interface an `ActiveInterface` value selects.
pub open spec fn selected_gui(m: GuiManager) -> Gui {
    match m.active {
        ActiveInterface::NONE => m.empty,
        ActiveInterface::TEST => m.test,
        ActiveInterface::PAUSE => m.pause,
        ActiveInterface::HELP => m.help,
    }
}

/// Owns the four interfaces and tracks which one is active.
pub struct GuiManager {
    pub active: ActiveInterface,
    pub empty: Gui,
    pub test: Gui,
    pub pause: Gui,
    pub help: Gui,
}

impl GuiManager {
    /// A manager with four empty interfaces.
    pub fn new(active: ActiveInterface) -> (r: Self)
        ensures
            r.active == active,
            r.empty.vertices@.len() == 0,
            r.test.vertices@.len() == 0,
            r.pause.vertices@.len() == 0,
            r.help.vertices@.len() == 0,
    {
        GuiManager {
            active,
            empty: Gui::new(),
            test: Gui::new(),
            pause: Gui::new(),
            help: Gui::new(),
        }
    }

    /// Activates `interface` and hands back the one active before.
    pub fn set_gui(&mut self, interface: ActiveInterface) -> (r: ActiveInterface)
        ensures
            r == old(self).active,
            final(self).active == interface,
            final(self).empty == old(self).empty,
            final(self).test == old(self).test,
            final(self).pause == old(self).pause,
            final(self).help == old(self).help,
    {
        let before = self.active;
        self.active = interface;
        before
    }

    /// The active interface.
    pub fn active_interface(&self) -> (r: &Gui)
        ensures
            *r == selected_gui(*self),
    {
        match self.active {
            ActiveInterface::NONE => &self.empty,
            ActiveInterface::TEST => &self.test,
            ActiveInterface::PAUSE => &self.pause,
            ActiveInterface::HELP => &self.help,
        }
    }

    /// The active interface, for mutation: afterwards the manager holds
    /// whatever the caller left behind the borrow, in the same slot.
    pub fn active_interface_mut(&mut self) -> (r: &mut Gui)
        ensures
            *r == selected_gui(*old(self)),
            final(self).active == old(self).active,
            old(self).active is NONE ==> *final(self) == (GuiManager {
                empty: *final(r),
                ..*old(self)
            }),
            old(self).active is TEST ==> *final(self) == (GuiManager {
                test: *final(r),
                ..*old(self)
            }),
            old(self).active is PAUSE ==> *final(self) == (GuiManager {
                pause: *final(r),
                ..*old(self)
            }),
            old(self).active is HELP ==> *final(self) == (GuiManager {
                help: *final(r),
                ..*old(self)
            }),
    {
        match self.active {
            ActiveInterface::NONE => &mut self.empty,
            ActiveInterface::TEST => &mut self.test,
            ActiveInterface::PAUSE => &mut self.pause,
            ActiveInterface::HELP => &mut self.help,
        }
    }

    /// Repaints the health display inside the test interface: of its five
    /// four-vertex point blocks (which sit after two leading blocks), the
    /// first `num` are pulled forward (z = -200) and the rest flattened
    /// (z = 0); every other vertex stays as it was.
    pub fn set_hp(&mut self, num: u32)
        requires
            old(self).test.vertices@.len() >= 28,
        ensures
            final(self).active == old(self).active,
            final(self).empty == old(self).empty,
            final(self).pause == old(self).pause,
            final(self).help == old(self).help,
            final(self).test.indices@ == old(self).test.indices@,
            final(self).test.vertices@.len() == old(self).test.vertices@.len(),
            forall|i: int, j: int|
                0 <= i < 5 && 0 <= j < 4 ==> #[trigger] final(self).test.vertices@[8 + i * 4 + j]
                    == (Vertex {
                    z: if i < num {
                        -200i64
                    } else {
                        0i64
                    },
                    ..old(self).test.vertices@[8 + i * 4 + j]
                }),
            forall|k: int|
                (0 <= k < 8 || 28 <= k < old(self).test.vertices@.len())
                    ==> #[trigger] final(self).test.vertices@[k] == old(self).test.vertices@[k],
    {
        let ghost v0 = self.test.vertices@;
        let mut data = self.test.vertices_clone();
        let mut k: usize = 0;
        while k < 8
            invariant
                k <= 8,
                v0.len() >= 28,
                data@ =~= v0.skip(k as int),
            decreases 8 - k,
        {
            data.remove(0);
            k = k + 1;
            proof {
                assert(data@ =~= v0.skip(k as int));
            }
        }
        proof {
            assert(data@ =~= v0.subrange(8, 8 + data@.len() as int));
        }
        while data.len() > 20
            invariant
                20 <= data@.len(),
                8 + data@.len() <= v0.len(),
                data@ =~= v0.subrange(8, 8 + data@.len() as int),
            decreases data.len(),
        {
            data.remove(data.len() - 1);
            proof {
                assert(data@ =~= v0.subrange(8, 8 + data@.len() as int));
            }
        }
        for i in 0..5usize
            invariant
                data@.len() == 20,
                forall|a: int, b: int|
                    0 <= a < i && 0 <= b < 4 ==> #[trigger] data@[a * 4 + b] == (Vertex {
                        z: if a < num {
                            -200i64
                        } else {
                            0i64
                        },
                        ..v0[8 + a * 4 + b]
                    }),
                forall|m: int|
                    (i * 4) <= m < 20 ==> #[trigger] data@[m] == v0[8 + m],
        {
            for j in 0..4usize
                invariant
                    i < 5,
                    data@.len() == 20,
                    forall|a: int, b: int|
                        0 <= a < i && 0 <= b < 4 ==> #[trigger] data@[a * 4 + b] == (Vertex {
                            z: if a < num {
                                -200i64
                            } else {
                                0i64
                            },
                            ..v0[8 + a * 4 + b]
                        }),
                    forall|b: int|
                        0 <= b < j ==> #[trigger] data@[i as int * 4 + b] == (Vertex {
                            z: if (i as int) < num {
                                -200i64
                            } else {
                                0i64
                            },
                            ..v0[8 + i as int * 4 + b]
                        }),
                    forall|m: int|
                        (i * 4 + j) <= m < 20 ==> #[trigger] data@[m] == v0[8 + m],
            {
                let idx = i * 4 + j;
                let mut vx = data[idx];
                vx.z = if i as u32 >= num {
                    0
                } else {
                    -200
                };
                data.set(idx, vx);
            }
        }
        self.test.update_vertex(8, &data);
        proof {
            assert forall|i: int, j: int| 0 <= i < 5 && 0 <= j < 4 implies #[trigger] self
                .test
                .vertices@[8 + i * 4 + j] == (Vertex {
                z: if i < num {
                    -200i64
                } else {
                    0i64
                },
                ..v0[8 + i * 4 + j]
            }) by {
                assert(self.test.vertices@[8 + i * 4 + j] == data@[(8 + i * 4 + j) - 8]);
                assert((8 + i * 4 + j) - 8 == i * 4 + j);
                assert(data@[i * 4 + j] == (Vertex {
                    z: if i < num {
                        -200i64
                    } else {
                        0i64
                    },
                    ..v0[8 + i * 4 + j]
                }));
            }
            assert forall|k: int|
                (0 <= k < 8 || 28 <= k < v0.len()) implies #[trigger] self.test.vertices@[k]
                == v0[k] by {}
        }
    }
}

} // verus!
