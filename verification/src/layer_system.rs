//! Layers and the layer stack: ordered raster surfaces with visibility and
//! opacity, an active-layer pointer, and ordered alpha compositing.

use vstd::prelude::*;
use crate::color::{
    blend_spec,
    opacity_scale_spec,
    premul_wf,
    transparent_spec,
    Color,
};
use crate::ids::fresh_layer_id;
use crate::paint_engine::PaintStroke;
use crate::pixmap::{dims_valid, Pixmap};
use crate::raster::stamp_all;
use crate::raster::stroke_centers;

verus! {

/// One paint layer: a pixel surface, the committed strokes that produced it
/// (provenance, never a second rendering path), and display metadata.
///
/// Opacity maps 0..=255 onto [0, 1]; 255 is fully opaque.
#[derive(Debug, Clone)]
pub struct Layer {
    pub id: uuid::Uuid,
    pub name: String,
    pub pixmap: Pixmap,
    pub strokes: Vec<PaintStroke>,
    pub visible: bool,
    pub opacity: u8,
}

impl Layer {
    /// The surface is well formed and so is every committed stroke.
    pub open spec fn wf(self) -> bool {
        &&& self.pixmap.wf()
        &&& forall|i: int|
            0 <= i < self.strokes@.len() ==> (#[trigger] self.strokes@[i]).wf()
    }

    /// Creates a layer with a fully transparent surface of the given size.
    /// `None` reports an allocation failure: the dimensions are degenerate.
    /// The enclosing action must then be abandoned with no state disturbed.
    pub fn new(name: String, width: u32, height: u32) -> (r: Option<Layer>)
        ensures
            r is Some <==> dims_valid(width as int, height as int),
            r is Some ==> {
                &&& r->Some_0.wf()
                &&& r->Some_0.name@ == name@
                &&& r->Some_0.pixmap.width == width
                &&& r->Some_0.pixmap.height == height
                &&& r->Some_0.pixmap.pixels@ =~= Seq::new(
                    (width * height) as nat,
                    |i: int| transparent_spec(),
                )
                &&& r->Some_0.strokes@ =~= Seq::<PaintStroke>::empty()
                &&& r->Some_0.visible
                &&& r->Some_0.opacity == 255
            },
    {
        match Pixmap::new(width, height) {
            None => None,
            Some(pixmap) => Some(
                Layer {
                    id: fresh_layer_id(),
                    name,
                    pixmap,
                    strokes: Vec::new(),
                    visible: true,
                    opacity: 255,
                },
            ),
        }
    }

    /// Resets the surface to fully transparent and drops the history.
    pub fn clear(&mut self)
        requires
            old(self).wf(),
        ensures
            final(self).wf(),
            layer_cleared(*old(self), *final(self)),
    {
        self.pixmap.fill(Color::transparent());
        self.strokes.clear();
    }

    /// Rasterizes the stroke onto this layer's own surface and appends it to
    /// the history, keeping surface and history in sync.
    pub fn add_stroke(&mut self, stroke: PaintStroke)
        requires
            old(self).wf(),
            stroke.wf(),
        ensures
            final(self).wf(),
            layer_with_stroke(*old(self), *final(self), stroke),
    {
        stroke.draw_to_pixmap(&mut self.pixmap);
        self.strokes.push(stroke);
    }

    /// The number of committed strokes.
    pub fn stroke_count(&self) -> (n: usize)
        ensures
            n == self.strokes@.len(),
    {
        self.strokes.len()
    }

    /// Sets the layer opacity; the whole 0..=255 range maps onto [0, 1].
    pub fn set_opacity(&mut self, opacity: u8)
        ensures
            *final(self) == (Layer { opacity, ..*old(self) }),
    {
        self.opacity = opacity;
    }

    /// Shows or hides the layer in composite output.
    pub fn set_visible(&mut self, visible: bool)
        ensures
            *final(self) == (Layer { visible, ..*old(self) }),
    {
        self.visible = visible;
    }

    /// Renames the layer.
    pub fn set_name(&mut self, name: String)
        ensures
            *final(self) == (Layer { name, ..*old(self) }),
    {
        self.name = name;
    }
}

/// `after` is `before` with a transparent surface and no history, all other
/// state untouched.
pub open spec fn layer_cleared(before: Layer, after: Layer) -> bool {
    &&& after.id == before.id
    &&& after.name@ == before.name@
    &&& after.visible == before.visible
    &&& after.opacity == before.opacity
    &&& after.strokes@.len() == 0
    &&& after.pixmap.width == before.pixmap.width
    &&& after.pixmap.height == before.pixmap.height
    &&& after.pixmap.pixels@ == Seq::new(before.pixmap.pixels@.len(), |i: int| transparent_spec())
}

/// `after` is `before` with `stroke` rasterized onto the surface and
/// appended to the history: the two effects stay in sync.
pub open spec fn layer_with_stroke(before: Layer, after: Layer, stroke: PaintStroke) -> bool {
    &&& after.id == before.id
    &&& after.name@ == before.name@
    &&& after.visible == before.visible
    &&& after.opacity == before.opacity
    &&& after.strokes@ == before.strokes@.push(stroke)
    &&& after.pixmap.width == before.pixmap.width
    &&& after.pixmap.height == before.pixmap.height
    &&& after.pixmap.pixels@ == stamp_all(
        before.pixmap.pixels@,
        before.pixmap.width as int,
        stroke_centers(stroke.points@, stroke.stroke_width as int),
        stroke.stroke_width as int,
        stroke.color,
    )
}

/// `after` is `before` with a fresh transparent surface of the given size;
/// the history and all metadata are kept. Surface content is discarded by
/// design on resize.
pub open spec fn layer_resized(before: Layer, after: Layer, w: int, h: int) -> bool {
    &&& after.id == before.id
    &&& after.name@ == before.name@
    &&& after.visible == before.visible
    &&& after.opacity == before.opacity
    &&& after.strokes@ == before.strokes@
    &&& after.pixmap.width == w
    &&& after.pixmap.height == h
    &&& after.pixmap.pixels@ == Seq::new((w * h) as nat, |i: int| transparent_spec())
}

/// A freshly added blank layer, as `add_layer` creates it.
pub open spec fn layer_blank(l: Layer, name: Seq<char>, w: int, h: int) -> bool {
    &&& l.name@ == name
    &&& l.visible
    &&& l.opacity == 255
    &&& l.strokes@.len() == 0
    &&& l.pixmap.width == w
    &&& l.pixmap.height == h
    &&& l.pixmap.pixels@ == Seq::new((w * h) as nat, |i: int| transparent_spec())
}

/// The most layers a stack will hold: a machine limit that keeps index
/// arithmetic comfortably in range.
pub const MAX_LAYERS: usize = 65536;

/// Whether a layer is well formed and sized to the given canvas.
pub open spec fn layer_fits(l: Layer, w: int, h: int) -> bool {
    &&& l.wf()
    &&& l.pixmap.width == w
    &&& l.pixmap.height == h
}

/// Where the active index lands after removing `index` from a stack,
/// leaving `new_len` layers: the previous logical neighbor, clamped.
pub open spec fn active_after_remove(a: int, index: int, new_len: int) -> int {
    if a >= new_len {
        new_len - 1
    } else if a > index {
        a - 1
    } else {
        a
    }
}

/// A layer order with entries `i` and `i + 1` exchanged.
pub open spec fn swapped_layers(layers: Seq<Layer>, i: int) -> Seq<Layer> {
    layers.update(i, layers[i + 1]).update(i + 1, layers[i])
}

/// Where the active index lands after entries `i` and `i + 1` are
/// exchanged: it keeps referencing the same logical layer.
pub open spec fn swap_active(a: int, i: int) -> int {
    if a == i {
        i + 1
    } else if a == i + 1 {
        i
    } else {
        a
    }
}

/// The ordered layer stack: z-order is list order with the last entry
/// topmost, plus an active-layer pointer and the canvas size.
///
/// At least one layer always exists; every surface matches the canvas size.
#[derive(Debug)]
pub struct LayerManager {
    layers: Vec<Layer>,
    active_layer_index: usize,
    canvas_width: u32,
    canvas_height: u32,
}

impl LayerManager {
    /// The layers, bottom to top.
    pub closed spec fn layers_seq(self) -> Seq<Layer> {
        self.layers@
    }

    /// The index of the active layer.
    pub closed spec fn active(self) -> int {
        self.active_layer_index as int
    }

    /// The canvas width.
    pub closed spec fn canvas_w(self) -> int {
        self.canvas_width as int
    }

    /// The canvas height.
    pub closed spec fn canvas_h(self) -> int {
        self.canvas_height as int
    }

    /// The stack invariant: at least one layer, a valid active index, a
    /// valid canvas size, and every layer well formed at the canvas size.
    pub open spec fn wf(self) -> bool {
        &&& 1 <= self.layers_seq().len() <= MAX_LAYERS
        &&& 0 <= self.active() < self.layers_seq().len()
        &&& dims_valid(self.canvas_w(), self.canvas_h())
        &&& forall|i: int|
            0 <= i < self.layers_seq().len() ==> layer_fits(
                #[trigger] self.layers_seq()[i],
                self.canvas_w(),
                self.canvas_h(),
            )
    }

    /// Creates a stack over a canvas of the given size, holding one default
    /// layer named "Layer 1". `None` reports an allocation failure for
    /// degenerate dimensions; no stack exists then.
    pub fn with_size(width: u32, height: u32) -> (r: Option<LayerManager>)
        ensures
            r is Some <==> dims_valid(width as int, height as int),
            r is Some ==> {
                &&& r->Some_0.wf()
                &&& r->Some_0.canvas_w() == width
                &&& r->Some_0.canvas_h() == height
                &&& r->Some_0.layers_seq().len() == 1
                &&& r->Some_0.active() == 0
                &&& layer_blank(r->Some_0.layers_seq()[0], "Layer 1"@, width as int, height as int)
            },
    {
        let name: String = String::from_str("Layer 1");
        match Layer::new(name, width, height) {
            None => None,
            Some(layer) => {
                let mut layers: Vec<Layer> = Vec::new();
                layers.push(layer);
                Some(
                    LayerManager {
                        layers,
                        active_layer_index: 0,
                        canvas_width: width,
                        canvas_height: height,
                    },
                )
            },
        }
    }

    /// Creates a stack over the default 800 x 600 canvas with one default
    /// layer.
    pub fn new() -> (r: LayerManager)
        ensures
            r.wf(),
            r.canvas_w() == 800,
            r.canvas_h() == 600,
            r.layers_seq().len() == 1,
            r.active() == 0,
            layer_blank(r.layers_seq()[0], "Layer 1"@, 800, 600),
    {
        let r: Option<LayerManager> = LayerManager::with_size(800, 600);
        match r {
            Some(m) => m,
            None => {
                proof {
                    assert(false);
                }
                vstd::pervasive::unreached()
            },
        }
    }

    /// Appends a new blank layer sized to the canvas and makes it active.
    /// Returns the new layer's index.
    pub fn add_layer(&mut self, name: String) -> (r: usize)
        requires
            old(self).wf(),
            old(self).layers_seq().len() < MAX_LAYERS,
        ensures
            final(self).wf(),
            final(self).canvas_w() == old(self).canvas_w(),
            final(self).canvas_h() == old(self).canvas_h(),
            final(self).layers_seq().len() == old(self).layers_seq().len() + 1,
            final(self).layers_seq().subrange(0, old(self).layers_seq().len() as int) == old(
                self,
            ).layers_seq(),
            layer_blank(
                final(self).layers_seq().last(),
                name@,
                old(self).canvas_w(),
                old(self).canvas_h(),
            ),
            final(self).active() == old(self).layers_seq().len(),
            r == old(self).layers_seq().len(),
    {
        let layer: Option<Layer> = Layer::new(name, self.canvas_width, self.canvas_height);
        match layer {
            Some(l) => {
                self.layers.push(l);
                let new_index: usize = self.layers.len() - 1;
                self.active_layer_index = new_index;
                proof {
                    assert(final(self).layers_seq().subrange(
                        0,
                        old(self).layers_seq().len() as int,
                    ) =~= old(self).layers_seq());
                }
                new_index
            },
            None => {
                proof {
                    assert(false);
                }
                0
            },
        }
    }

    /// Removes the layer at `index` and repairs the active index. A no-op
    /// returning `false` when only one layer remains (the stack never goes
    /// empty) or the index is out of range; stale indices never crash.
    pub fn remove_layer(&mut self, index: usize) -> (r: bool)
        requires
            old(self).wf(),
        ensures
            final(self).wf(),
            r == (old(self).layers_seq().len() > 1 && index < old(self).layers_seq().len()),
            !r ==> *final(self) == *old(self),
            r ==> {
                &&& final(self).canvas_w() == old(self).canvas_w()
                &&& final(self).canvas_h() == old(self).canvas_h()
                &&& final(self).layers_seq() == old(self).layers_seq().remove(index as int)
                &&& final(self).active() == active_after_remove(
                    old(self).active(),
                    index as int,
                    old(self).layers_seq().len() - 1,
                )
            },
    {
        if self.layers.len() <= 1 || index >= self.layers.len() {
            return false;
        }
        self.layers.remove(index);
        if self.active_layer_index >= self.layers.len() {
            self.active_layer_index = self.layers.len() - 1;
        } else if self.active_layer_index > index {
            self.active_layer_index = self.active_layer_index - 1;
        }
        true
    }

    /// Moves the layer at `index` one step toward the top (later in draw
    /// order), exchanging it with its upper neighbor. A no-op returning
    /// `false` at the top boundary or out of range.
    pub fn move_layer_up(&mut self, index: usize) -> (r: bool)
        requires
            old(self).wf(),
        ensures
            final(self).wf(),
            r == (index + 1 < old(self).layers_seq().len()),
            !r ==> *final(self) == *old(self),
            r ==> {
                &&& final(self).canvas_w() == old(self).canvas_w()
                &&& final(self).canvas_h() == old(self).canvas_h()
                &&& final(self).layers_seq() == swapped_layers(old(self).layers_seq(), index as int)
                &&& final(self).active() == swap_active(old(self).active(), index as int)
            },
    {
        if index >= self.layers.len() - 1 {
            return false;
        }
        let moved: Layer = self.layers.remove(index);
        self.layers.insert(index + 1, moved);
        if self.active_layer_index == index {
            self.active_layer_index = index + 1;
        } else if self.active_layer_index == index + 1 {
            self.active_layer_index = index;
        }
        proof {
            assert(final(self).layers_seq() =~= swapped_layers(
                old(self).layers_seq(),
                index as int,
            ));
        }
        true
    }

    /// Moves the layer at `index` one step toward the bottom (earlier in
    /// draw order), exchanging it with its lower neighbor. A no-op returning
    /// `false` at the bottom boundary or out of range.
    pub fn move_layer_down(&mut self, index: usize) -> (r: bool)
        requires
            old(self).wf(),
        ensures
            final(self).wf(),
            r == (1 <= index < old(self).layers_seq().len()),
            !r ==> *final(self) == *old(self),
            r ==> {
                &&& final(self).canvas_w() == old(self).canvas_w()
                &&& final(self).canvas_h() == old(self).canvas_h()
                &&& final(self).layers_seq() == swapped_layers(
                    old(self).layers_seq(),
                    index as int - 1,
                )
                &&& final(self).active() == swap_active(old(self).active(), index as int - 1)
            },
    {
        if index == 0 || index >= self.layers.len() {
            return false;
        }
        let moved: Layer = self.layers.remove(index - 1);
        self.layers.insert(index, moved);
        if self.active_layer_index == index {
            self.active_layer_index = index - 1;
        } else if self.active_layer_index == index - 1 {
            self.active_layer_index = index;
        }
        proof {
            assert(final(self).layers_seq() =~= swapped_layers(
                old(self).layers_seq(),
                index as int - 1,
            ));
        }
        true
    }

    /// Makes the layer at `index` active; a no-op returning `false` out of
    /// range.
    pub fn set_active_layer(&mut self, index: usize) -> (r: bool)
        requires
            old(self).wf(),
        ensures
            final(self).wf(),
            r == (index < old(self).layers_seq().len()),
            final(self).layers_seq() == old(self).layers_seq(),
            final(self).canvas_w() == old(self).canvas_w(),
            final(self).canvas_h() == old(self).canvas_h(),
            final(self).active() == if index < old(self).layers_seq().len() {
                index as int
            } else {
                old(self).active()
            },
    {
        if index < self.layers.len() {
            self.active_layer_index = index;
            true
        } else {
            false
        }
    }

    /// The active layer, read-only.
    pub fn get_active_layer(&self) -> (r: Option<&Layer>)
        requires
            self.wf(),
        ensures
            r is Some,
            *r->0 == self.layers_seq()[self.active()],
    {
        self.layers.get(self.active_layer_index)
    }

    /// The layer at `index`, read-only; `None` out of range.
    pub fn get_layer(&self, index: usize) -> (r: Option<&Layer>)
        ensures
            r is Some <==> index < self.layers_seq().len(),
            r is Some ==> *r->0 == self.layers_seq()[index as int],
    {
        self.layers.get(index)
    }

    /// All layers, bottom to top.
    pub fn get_layers(&self) -> (r: &Vec<Layer>)
        ensures
            r@ == self.layers_seq(),
    {
        &self.layers
    }

    /// The number of layers.
    pub fn layer_count(&self) -> (n: usize)
        ensures
            n == self.layers_seq().len(),
    {
        self.layers.len()
    }

    /// The index of the active layer.
    pub fn active_layer_index(&self) -> (n: usize)
        ensures
            n == self.active(),
    {
        self.active_layer_index
    }


    /// The layer at `index`, writable in place; `None` out of range. The
    /// stack stays well formed as long as the caller leaves the layer well
    /// formed at the canvas size.
    pub fn get_layer_mut<'a>(&'a mut self, index: usize) -> (r: Option<&'a mut Layer>)
        requires
            old(self).wf(),
        ensures
            r is Some <==> index < old(self).layers_seq().len(),
            r is None ==> *final(self) == *old(self),
            r is Some ==> {
                &&& *r->0 == old(self).layers_seq()[index as int]
                &&& final(self).layers_seq() == old(self).layers_seq().update(
                    index as int,
                    *final(r->0),
                )
                &&& final(self).active() == old(self).active()
                &&& final(self).canvas_w() == old(self).canvas_w()
                &&& final(self).canvas_h() == old(self).canvas_h()
                &&& layer_fits(*final(r->0), old(self).canvas_w(), old(self).canvas_h())
                    ==> final(self).wf()
            },
    {
        if index < self.layers.len() {
            Some(&mut self.layers[index])
        } else {
            None
        }
    }

    /// The active layer, writable in place. The stack stays well formed as
    /// long as the caller leaves the layer well formed at the canvas size.
    pub fn get_active_layer_mut<'a>(&'a mut self) -> (r: Option<&'a mut Layer>)
        requires
            old(self).wf(),
        ensures
            r is Some,
            r is Some ==> {
                &&& *r->0 == old(self).layers_seq()[old(self).active()]
                &&& final(self).layers_seq() == old(self).layers_seq().update(
                    old(self).active(),
                    *final(r->0),
                )
                &&& final(self).active() == old(self).active()
                &&& final(self).canvas_w() == old(self).canvas_w()
                &&& final(self).canvas_h() == old(self).canvas_h()
                &&& layer_fits(*final(r->0), old(self).canvas_w(), old(self).canvas_h())
                    ==> final(self).wf()
            },
    {
        let index: usize = self.active_layer_index;
        Some(&mut self.layers[index])
    }

    /// Rasterizes a finished stroke onto the active layer and appends it to
    /// that layer's history; no other layer is touched.
    pub fn add_stroke_to_active(&mut self, stroke: PaintStroke)
        requires
            old(self).wf(),
            stroke.wf(),
        ensures
            final(self).wf(),
            final(self).canvas_w() == old(self).canvas_w(),
            final(self).canvas_h() == old(self).canvas_h(),
            final(self).active() == old(self).active(),
            final(self).layers_seq().len() == old(self).layers_seq().len(),
            layer_with_stroke(
                old(self).layers_seq()[old(self).active()],
                final(self).layers_seq()[old(self).active()],
                stroke,
            ),
            forall|i: int|
                0 <= i < old(self).layers_seq().len() && i != old(self).active()
                    ==> final(self).layers_seq()[i] == old(self).layers_seq()[i],
    {
        let index: usize = self.active_layer_index;
        let mut layer: Layer = self.layers.remove(index);
        layer.add_stroke(stroke);
        self.layers.insert(index, layer);
        proof {
            assert(forall|i: int|
                0 <= i < old(self).layers_seq().len() && i != old(self).active()
                    ==> final(self).layers_seq()[i] == old(self).layers_seq()[i]);
        }
    }

    /// Resets the active layer to a transparent surface with no history.
    pub fn clear_active_layer(&mut self)
        requires
            old(self).wf(),
        ensures
            final(self).wf(),
            final(self).canvas_w() == old(self).canvas_w(),
            final(self).canvas_h() == old(self).canvas_h(),
            final(self).active() == old(self).active(),
            final(self).layers_seq().len() == old(self).layers_seq().len(),
            layer_cleared(
                old(self).layers_seq()[old(self).active()],
                final(self).layers_seq()[old(self).active()],
            ),
            forall|i: int|
                0 <= i < old(self).layers_seq().len() && i != old(self).active()
                    ==> final(self).layers_seq()[i] == old(self).layers_seq()[i],
    {
        let index: usize = self.active_layer_index;
        let mut layer: Layer = self.layers.remove(index);
        layer.clear();
        self.layers.insert(index, layer);
    }

    /// Resets every layer to a transparent surface with no history.
    pub fn clear_all_layers(&mut self)
        requires
            old(self).wf(),
        ensures
            final(self).wf(),
            final(self).canvas_w() == old(self).canvas_w(),
            final(self).canvas_h() == old(self).canvas_h(),
            final(self).active() == old(self).active(),
            final(self).layers_seq().len() == old(self).layers_seq().len(),
            forall|i: int|
                0 <= i < old(self).layers_seq().len() ==> layer_cleared(
                    old(self).layers_seq()[i],
                    #[trigger] final(self).layers_seq()[i],
                ),
    {
        let n: usize = self.layers.len();
        let mut i: usize = 0;
        while i < n
            invariant
                i <= n,
                n == self.layers@.len(),
                n == old(self).layers_seq().len(),
                self.active_layer_index == old(self).active_layer_index,
                self.canvas_width == old(self).canvas_width,
                self.canvas_height == old(self).canvas_height,
                old(self).wf(),
                forall|j: int|
                    0 <= j < i ==> layer_cleared(
                        old(self).layers_seq()[j],
                        #[trigger] self.layers@[j],
                    ),
                forall|j: int| i <= j < n ==> self.layers@[j] == old(self).layers_seq()[j],
            decreases n - i,
        {
            proof {
                assert(layer_fits(
                    old(self).layers_seq()[i as int],
                    old(self).canvas_w(),
                    old(self).canvas_h(),
                ));
            }
            let mut layer: Layer = self.layers.remove(i);
            layer.clear();
            self.layers.insert(i, layer);
            i = i + 1;
        }
    }

    /// Sets the opacity of the layer at `index`; a no-op returning `false`
    /// out of range.
    pub fn set_layer_opacity(&mut self, index: usize, opacity: u8) -> (r: bool)
        requires
            old(self).wf(),
        ensures
            final(self).wf(),
            r == (index < old(self).layers_seq().len()),
            !r ==> *final(self) == *old(self),
            r ==> {
                &&& final(self).canvas_w() == old(self).canvas_w()
                &&& final(self).canvas_h() == old(self).canvas_h()
                &&& final(self).active() == old(self).active()
                &&& final(self).layers_seq() == old(self).layers_seq().update(
                    index as int,
                    Layer { opacity, ..old(self).layers_seq()[index as int] },
                )
            },
    {
        if index >= self.layers.len() {
            return false;
        }
        let mut layer: Layer = self.layers.remove(index);
        layer.set_opacity(opacity);
        self.layers.insert(index, layer);
        proof {
            assert(final(self).layers_seq() =~= old(self).layers_seq().update(
                index as int,
                Layer { opacity, ..old(self).layers_seq()[index as int] },
            ));
        }
        true
    }

    /// Shows or hides the layer at `index`; a no-op returning `false` out
    /// of range.
    pub fn set_layer_visible(&mut self, index: usize, visible: bool) -> (r: bool)
        requires
            old(self).wf(),
        ensures
            final(self).wf(),
            r == (index < old(self).layers_seq().len()),
            !r ==> *final(self) == *old(self),
            r ==> {
                &&& final(self).canvas_w() == old(self).canvas_w()
                &&& final(self).canvas_h() == old(self).canvas_h()
                &&& final(self).active() == old(self).active()
                &&& final(self).layers_seq() == old(self).layers_seq().update(
                    index as int,
                    Layer { visible, ..old(self).layers_seq()[index as int] },
                )
            },
    {
        if index >= self.layers.len() {
            return false;
        }
        let mut layer: Layer = self.layers.remove(index);
        layer.set_visible(visible);
        self.layers.insert(index, layer);
        proof {
            assert(final(self).layers_seq() =~= old(self).layers_seq().update(
                index as int,
                Layer { visible, ..old(self).layers_seq()[index as int] },
            ));
        }
        true
    }

    /// Renames the layer at `index`; a no-op returning `false` out of
    /// range.
    pub fn rename_layer(&mut self, index: usize, name: String) -> (r: bool)
        requires
            old(self).wf(),
        ensures
            final(self).wf(),
            r == (index < old(self).layers_seq().len()),
            !r ==> *final(self) == *old(self),
            r ==> {
                &&& final(self).canvas_w() == old(self).canvas_w()
                &&& final(self).canvas_h() == old(self).canvas_h()
                &&& final(self).active() == old(self).active()
                &&& final(self).layers_seq() == old(self).layers_seq().update(
                    index as int,
                    Layer { name, ..old(self).layers_seq()[index as int] },
                )
            },
    {
        if index >= self.layers.len() {
            return false;
        }
        let mut layer: Layer = self.layers.remove(index);
        layer.set_name(name);
        self.layers.insert(index, layer);
        proof {
            assert(final(self).layers_seq() =~= old(self).layers_seq().update(
                index as int,
                Layer { name, ..old(self).layers_seq()[index as int] },
            ));
        }
        true
    }

    /// Replaces every layer's surface with a fresh blank surface of the new
    /// size, keeping history and metadata: resize is lossy by design, pixel
    /// content is discarded. A no-op returning `false` for degenerate
    /// dimensions: the allocation failure aborts the whole action.
    pub fn resize(&mut self, width: u32, height: u32) -> (r: bool)
        requires
            old(self).wf(),
        ensures
            final(self).wf(),
            r == dims_valid(width as int, height as int),
            !r ==> *final(self) == *old(self),
            r ==> {
                &&& final(self).canvas_w() == width
                &&& final(self).canvas_h() == height
                &&& final(self).active() == old(self).active()
                &&& final(self).layers_seq().len() == old(self).layers_seq().len()
                &&& forall|i: int|
                    0 <= i < old(self).layers_seq().len() ==> layer_resized(
                        old(self).layers_seq()[i],
                        #[trigger] final(self).layers_seq()[i],
                        width as int,
                        height as int,
                    )
            },
    {
        if width == 0 || height == 0 || width > crate::pixmap::MAX_DIM || height
            > crate::pixmap::MAX_DIM {
            return false;
        }
        self.canvas_width = width;
        self.canvas_height = height;
        let n: usize = self.layers.len();
        let mut i: usize = 0;
        while i < n
            invariant
                i <= n,
                n == self.layers@.len(),
                n == old(self).layers_seq().len(),
                self.active_layer_index == old(self).active_layer_index,
                self.canvas_width == width,
                self.canvas_height == height,
                dims_valid(width as int, height as int),
                old(self).wf(),
                forall|j: int|
                    0 <= j < i ==> layer_resized(
                        old(self).layers_seq()[j],
                        #[trigger] self.layers@[j],
                        width as int,
                        height as int,
                    ),
                forall|j: int| i <= j < n ==> self.layers@[j] == old(self).layers_seq()[j],
            decreases n - i,
        {
            let layer: Layer = self.layers.remove(i);
            let fresh: Option<Pixmap> = Pixmap::new(width, height);
            match fresh {
                Some(pixmap) => {
                    self.layers.insert(i, Layer { pixmap, ..layer });
                },
                None => {
                    proof {
                        assert(false);
                    }
                },
            }
            i = i + 1;
        }
        true
    }
}


/// The compositing background: an opaque white canvas.
pub open spec fn background(w: int, h: int) -> Seq<Color> {
    Seq::new((w * h) as nat, |i: int| (Color { r: 255, g: 255, b: 255, a: 255 }))
}

/// One layer blended over an accumulated image: each pixel of a visible
/// layer is scaled by the layer opacity and source-over blended; an
/// invisible layer contributes nothing.
pub open spec fn layer_over(acc: Seq<Color>, l: Layer) -> Seq<Color> {
    if !l.visible {
        acc
    } else {
        Seq::new(
            acc.len(),
            |i: int| blend_spec(acc[i], opacity_scale_spec(l.pixmap.pixels@[i], l.opacity as int)),
        )
    }
}

/// The first `upto` layers blended over `acc`, bottom to top.
pub open spec fn composite_upto(layers: Seq<Layer>, acc: Seq<Color>, upto: int) -> Seq<Color>
    decreases upto,
{
    if upto <= 0 {
        acc
    } else {
        layer_over(composite_upto(layers, acc, upto - 1), layers[upto - 1])
    }
}

/// Compositing never changes the pixel count.
pub proof fn lemma_composite_upto_len(layers: Seq<Layer>, acc: Seq<Color>, upto: int)
    ensures
        composite_upto(layers, acc, upto).len() == acc.len(),
    decreases upto,
{
    if upto > 0 {
        lemma_composite_upto_len(layers, acc, upto - 1);
    }
}

/// Compositing depends only on the layers actually blended.
pub proof fn lemma_composite_congruence(
    l1: Seq<Layer>,
    l2: Seq<Layer>,
    acc: Seq<Color>,
    upto: int,
)
    requires
        forall|i: int| 0 <= i < upto ==> l1[i] == l2[i],
    ensures
        composite_upto(l1, acc, upto) == composite_upto(l2, acc, upto),
    decreases upto,
{
    if upto > 0 {
        lemma_composite_congruence(l1, l2, acc, upto - 1);
    }
}

/// A layer that is invisible or fully transparent by opacity contributes
/// nothing to the composite.
pub open spec fn layer_neutral(l: Layer) -> bool {
    !l.visible || l.opacity == 0
}

/// Blending a neutral layer leaves the accumulated image unchanged.
pub proof fn lemma_layer_over_neutral(acc: Seq<Color>, l: Layer)
    requires
        layer_neutral(l),
    ensures
        layer_over(acc, l) == acc,
{
    if l.visible {
        assert forall|i: int| 0 <= i < acc.len() implies layer_over(acc, l)[i] == acc[i] by {
            let c = l.pixmap.pixels@[i];
            assert(c.r as int * 0 == 0 && c.g as int * 0 == 0 && c.b as int * 0 == 0 && c.a as int
                * 0 == 0) by (nonlinear_arith);
            assert(opacity_scale_spec(c, 0) == transparent_spec());
            crate::color::lemma_blend_transparent(acc[i]);
        }
        assert(layer_over(acc, l) =~= acc);
    }
}

/// Removing a neutral layer from the stack does not change the composite:
/// its visual contribution is gone without affecting layers above or below.
pub proof fn lemma_composite_skip_neutral(layers: Seq<Layer>, acc: Seq<Color>, k: int, upto: int)
    requires
        0 <= k < upto <= layers.len(),
        layer_neutral(layers[k]),
    ensures
        composite_upto(layers.remove(k), acc, upto - 1) == composite_upto(layers, acc, upto),
    decreases upto,
{
    if upto - 1 == k {
        lemma_layer_over_neutral(composite_upto(layers, acc, k), layers[k]);
        lemma_composite_congruence(layers.remove(k), layers, acc, k);
    } else {
        lemma_composite_skip_neutral(layers, acc, k, upto - 1);
        assert(layers.remove(k)[upto - 2] == layers[upto - 1]);
    }
}

impl LayerManager {
    /// The composite image this stack displays: an opaque white background
    /// with every visible layer blended on top, bottom to top, at its own
    /// opacity.
    pub open spec fn composite_spec(self) -> Seq<Color> {
        composite_upto(
            self.layers_seq(),
            background(self.canvas_w(), self.canvas_h()),
            self.layers_seq().len() as int,
        )
    }

    /// Renders the layer stack into a fresh surface of canvas size: a full
    /// recomputation each call. Never fails on a well-formed stack.
    pub fn composite(&self) -> (r: Option<Pixmap>)
        requires
            self.wf(),
        ensures
            r is Some,
            r->Some_0.wf(),
            r->Some_0.width == self.canvas_w(),
            r->Some_0.height == self.canvas_h(),
            r->Some_0.pixels@ == self.composite_spec(),
    {
        let ghost lseq: Seq<Layer> = self.layers_seq();
        let ghost bg: Seq<Color> = background(self.canvas_w(), self.canvas_h());
        let mut result: Pixmap = match Pixmap::new(self.canvas_width, self.canvas_height) {
            Some(p) => p,
            None => {
                proof {
                    assert(false);
                }
                return None;
            },
        };
        result.fill(Color::white());
        proof {
            assert(result.pixels@ =~= bg);
        }
        let n: usize = self.layers.len();
        let mut i: usize = 0;
        while i < n
            invariant
                self.wf(),
                result.wf(),
                result.width == self.canvas_w(),
                result.height == self.canvas_h(),
                i <= n,
                n == lseq.len(),
                lseq == self.layers_seq(),
                bg == background(self.canvas_w(), self.canvas_h()),
                result.pixels@ == composite_upto(lseq, bg, i as int),
            decreases n - i,
        {
            proof {
                lemma_composite_upto_len(lseq, bg, i as int);
                assert(layer_fits(lseq[i as int], self.canvas_w(), self.canvas_h()));
            }
            let ghost acc: Seq<Color> = result.pixels@;
            let layer: &Layer = &self.layers[i];
            if layer.visible {
                let m: usize = result.pixels.len();
                proof {
                    assert(layer.pixmap.pixels@.len() == m);
                }
                let mut j: usize = 0;
                while j < m
                    invariant
                        j <= m,
                        m == acc.len(),
                        result.width == self.canvas_w(),
                        result.height == self.canvas_h(),
                        dims_valid(self.canvas_w(), self.canvas_h()),
                        m == result.width * result.height,
                        result.pixels@.len() == m,
                        layer == self.layers_seq()[i as int],
                        0 <= i < self.layers_seq().len(),
                        layer_fits(*layer, self.canvas_w(), self.canvas_h()),
                        forall|t: int|
                            0 <= t < m ==> premul_wf(#[trigger] acc[t]),
                        forall|t: int|
                            0 <= t < j ==> premul_wf(#[trigger] result.pixels@[t]),
                        forall|t: int|
                            0 <= t < j ==> #[trigger] result.pixels@[t] == blend_spec(
                                acc[t],
                                opacity_scale_spec(
                                    layer.pixmap.pixels@[t],
                                    layer.opacity as int,
                                ),
                            ),
                        forall|t: int| j <= t < m ==> #[trigger] result.pixels@[t] == acc[t],
                    decreases m - j,
                {
                    let sp: Color = layer.pixmap.pixels[j];
                    proof {
                        assert(premul_wf(layer.pixmap.pixels@[j as int]));
                        assert(premul_wf(result.pixels@[j as int]));
                    }
                    let sc: Color = crate::color::scale_opacity(sp, layer.opacity);
                    let d: Color = result.pixels[j];
                    let nb: Color = crate::color::blend_pixel(d, sc);
                    result.pixels.set(j, nb);
                    j = j + 1;
                }
                proof {
                    assert(result.pixels@ =~= layer_over(acc, lseq[i as int]));
                }
            } else {
                proof {
                    assert(result.pixels@ == layer_over(acc, lseq[i as int]));
                }
            }
            i = i + 1;
        }
        Some(result)
    }
}


/// However the stack was built or edited, a well-formed stack always holds
/// at least one layer: every operation above preserves `wf`, and removal of
/// the last layer is refused.
pub proof fn lemma_stack_never_empty(m: LayerManager)
    requires
        m.wf(),
    ensures
        m.layers_seq().len() >= 1,
{
}

/// Making the topmost of two layers invisible makes the composite equal to
/// compositing the bottom layer alone.
pub proof fn lemma_invisible_top_composite(m1: LayerManager, m2: LayerManager)
    requires
        m1.wf(),
        m2.wf(),
        m1.layers_seq().len() == 2,
        !m1.layers_seq()[1].visible,
        m2.canvas_w() == m1.canvas_w(),
        m2.canvas_h() == m1.canvas_h(),
        m2.layers_seq() == m1.layers_seq().subrange(0, 1),
    ensures
        m1.composite_spec() == m2.composite_spec(),
{
    let l1 = m1.layers_seq();
    let l2 = m2.layers_seq();
    let bg = background(m1.canvas_w(), m1.canvas_h());
    lemma_layer_over_neutral(composite_upto(l1, bg, 1), l1[1]);
    lemma_composite_congruence(l1, l2, bg, 1);
}

/// Setting a layer's opacity to zero removes its visual contribution
/// without affecting the layers above or below it: the composite equals
/// that of the same stack with the layer removed.
pub proof fn lemma_zero_opacity_composite(m1: LayerManager, m2: LayerManager, k: int)
    requires
        m1.wf(),
        m2.wf(),
        0 <= k < m1.layers_seq().len(),
        m1.layers_seq()[k].opacity == 0,
        m2.canvas_w() == m1.canvas_w(),
        m2.canvas_h() == m1.canvas_h(),
        m2.layers_seq() == m1.layers_seq().remove(k),
    ensures
        m1.composite_spec() == m2.composite_spec(),
{
    let l1 = m1.layers_seq();
    let bg = background(m1.canvas_w(), m1.canvas_h());
    lemma_composite_skip_neutral(l1, bg, k, l1.len() as int);
}

/// Moving a layer up and then moving the risen layer back down restores the
/// original order and active index exactly: `move_layer_up(i)` ensures the
/// swap at `i`, `move_layer_down(i + 1)` ensures the swap at the same `i`,
/// and the two swaps cancel.
pub proof fn lemma_move_roundtrip(layers: Seq<Layer>, a: int, i: int)
    requires
        0 <= i,
        i + 1 < layers.len(),
        0 <= a < layers.len(),
    ensures
        swapped_layers(swapped_layers(layers, i), i) == layers,
        swap_active(swap_active(a, i), i) == a,
{
    assert(swapped_layers(swapped_layers(layers, i), i) =~= layers);
}


/// The character for one decimal digit.
pub open spec fn digit_char(d: int) -> char {
    if d == 0 {
        '0'
    } else if d == 1 {
        '1'
    } else if d == 2 {
        '2'
    } else if d == 3 {
        '3'
    } else if d == 4 {
        '4'
    } else if d == 5 {
        '5'
    } else if d == 6 {
        '6'
    } else if d == 7 {
        '7'
    } else if d == 8 {
        '8'
    } else {
        '9'
    }
}

/// The decimal digits of a nonnegative number, most significant first.
pub open spec fn dec_rep(n: int) -> Seq<char>
    decreases n,
{
    if n < 10 {
        Seq::<char>::empty().push(digit_char(n))
    } else {
        dec_rep(n / 10).push(digit_char(n % 10))
    }
}

/// Appends the decimal digits of `n` to a string.
fn push_decimal(s: &mut String, n: u64)
    ensures
        final(s)@ == old(s)@ + dec_rep(n as int),
    decreases n,
{
    if n >= 10 {
        push_decimal(s, n / 10);
    }
    let ghost mid: Seq<char> = s@;
    let d: u64 = n % 10;
    if d == 0 {
        s.append("0");
        proof {
            reveal_strlit("0");
        }
    } else if d == 1 {
        s.append("1");
        proof {
            reveal_strlit("1");
        }
    } else if d == 2 {
        s.append("2");
        proof {
            reveal_strlit("2");
        }
    } else if d == 3 {
        s.append("3");
        proof {
            reveal_strlit("3");
        }
    } else if d == 4 {
        s.append("4");
        proof {
            reveal_strlit("4");
        }
    } else if d == 5 {
        s.append("5");
        proof {
            reveal_strlit("5");
        }
    } else if d == 6 {
        s.append("6");
        proof {
            reveal_strlit("6");
        }
    } else if d == 7 {
        s.append("7");
        proof {
            reveal_strlit("7");
        }
    } else if d == 8 {
        s.append("8");
        proof {
            reveal_strlit("8");
        }
    } else {
        s.append("9");
        proof {
            reveal_strlit("9");
        }
    }
    proof {
        assert(s@ =~= mid.push(digit_char(n as int % 10)));
        if n < 10 {
            assert(dec_rep(n as int) =~= Seq::<char>::empty().push(digit_char(n as int)));
            assert(s@ =~= old(s)@ + dec_rep(n as int));
        } else {
            assert(s@ =~= old(s)@ + dec_rep(n as int));
        }
    }
}

/// The default name of the `n`-th layer.
pub open spec fn default_layer_name(n: int) -> Seq<char> {
    "Layer "@ + dec_rep(n)
}

/// Builds the default name of the `n`-th layer.
fn make_layer_name(n: u64) -> (s: String)
    ensures
        s@ == default_layer_name(n as int),
{
    let mut s: String = String::from_str("Layer ");
    push_decimal(&mut s, n);
    s
}

/// A layer-panel request, dispatched against the stack as a whole.
#[derive(Debug, Clone)]
pub enum LayerAction {
    Add,
    Delete,
    MoveUp(usize),
    MoveDown(usize),
    SetOpacity(usize, u8),
    SetVisible(usize, bool),
    Rename(usize, String),
    SetActive(usize),
}

impl LayerManager {
    /// Dispatches a layer-panel request. Every malformed or stale request
    /// (an out-of-range index, a delete of the last layer) degrades to a
    /// no-op rather than a fault.
    pub fn handle_action(&mut self, action: LayerAction)
        requires
            old(self).wf(),
        ensures
            final(self).wf(),
            match action {
                LayerAction::Add => {
                    if old(self).layers_seq().len() < MAX_LAYERS {
                        &&& final(self).canvas_w() == old(self).canvas_w()
                        &&& final(self).canvas_h() == old(self).canvas_h()
                        &&& final(self).layers_seq().len() == old(self).layers_seq().len() + 1
                        &&& final(self).layers_seq().subrange(
                            0,
                            old(self).layers_seq().len() as int,
                        ) == old(self).layers_seq()
                        &&& layer_blank(
                            final(self).layers_seq().last(),
                            default_layer_name(old(self).layers_seq().len() as int + 1),
                            old(self).canvas_w(),
                            old(self).canvas_h(),
                        )
                        &&& final(self).active() == old(self).layers_seq().len()
                    } else {
                        *final(self) == *old(self)
                    }
                },
                LayerAction::Delete => {
                    if old(self).layers_seq().len() > 1 {
                        &&& final(self).canvas_w() == old(self).canvas_w()
                        &&& final(self).canvas_h() == old(self).canvas_h()
                        &&& final(self).layers_seq() == old(self).layers_seq().remove(
                            old(self).active(),
                        )
                        &&& final(self).active() == active_after_remove(
                            old(self).active(),
                            old(self).active(),
                            old(self).layers_seq().len() - 1,
                        )
                    } else {
                        *final(self) == *old(self)
                    }
                },
                LayerAction::MoveUp(index) => {
                    if index + 1 < old(self).layers_seq().len() {
                        &&& final(self).canvas_w() == old(self).canvas_w()
                        &&& final(self).canvas_h() == old(self).canvas_h()
                        &&& final(self).layers_seq() == swapped_layers(
                            old(self).layers_seq(),
                            index as int,
                        )
                        &&& final(self).active() == swap_active(old(self).active(), index as int)
                    } else {
                        *final(self) == *old(self)
                    }
                },
                LayerAction::MoveDown(index) => {
                    if 1 <= index < old(self).layers_seq().len() {
                        &&& final(self).canvas_w() == old(self).canvas_w()
                        &&& final(self).canvas_h() == old(self).canvas_h()
                        &&& final(self).layers_seq() == swapped_layers(
                            old(self).layers_seq(),
                            index as int - 1,
                        )
                        &&& final(self).active() == swap_active(
                            old(self).active(),
                            index as int - 1,
                        )
                    } else {
                        *final(self) == *old(self)
                    }
                },
                LayerAction::SetOpacity(index, opacity) => {
                    if index < old(self).layers_seq().len() {
                        &&& final(self).canvas_w() == old(self).canvas_w()
                        &&& final(self).canvas_h() == old(self).canvas_h()
                        &&& final(self).active() == old(self).active()
                        &&& final(self).layers_seq() == old(self).layers_seq().update(
                            index as int,
                            Layer { opacity, ..old(self).layers_seq()[index as int] },
                        )
                    } else {
                        *final(self) == *old(self)
                    }
                },
                LayerAction::SetVisible(index, visible) => {
                    if index < old(self).layers_seq().len() {
                        &&& final(self).canvas_w() == old(self).canvas_w()
                        &&& final(self).canvas_h() == old(self).canvas_h()
                        &&& final(self).active() == old(self).active()
                        &&& final(self).layers_seq() == old(self).layers_seq().update(
                            index as int,
                            Layer { visible, ..old(self).layers_seq()[index as int] },
                        )
                    } else {
                        *final(self) == *old(self)
                    }
                },
                LayerAction::Rename(index, name) => {
                    if index < old(self).layers_seq().len() {
                        &&& final(self).canvas_w() == old(self).canvas_w()
                        &&& final(self).canvas_h() == old(self).canvas_h()
                        &&& final(self).active() == old(self).active()
                        &&& final(self).layers_seq() == old(self).layers_seq().update(
                            index as int,
                            Layer { name, ..old(self).layers_seq()[index as int] },
                        )
                    } else {
                        *final(self) == *old(self)
                    }
                },
                LayerAction::SetActive(index) => {
                    &&& final(self).canvas_w() == old(self).canvas_w()
                    &&& final(self).canvas_h() == old(self).canvas_h()
                    &&& final(self).layers_seq() == old(self).layers_seq()
                    &&& final(self).active() == if index < old(self).layers_seq().len() {
                        index as int
                    } else {
                        old(self).active()
                    }
                },
            },
    {
        match action {
            LayerAction::Add => {
                let count: usize = self.layer_count();
                if count < MAX_LAYERS {
                    let new_name: String = make_layer_name(count as u64 + 1);
                    self.add_layer(new_name);
                }
            },
            LayerAction::Delete => {
                if self.layer_count() > 1 {
                    let index: usize = self.active_layer_index;
                    self.remove_layer(index);
                }
            },
            LayerAction::MoveUp(index) => {
                self.move_layer_up(index);
            },
            LayerAction::MoveDown(index) => {
                self.move_layer_down(index);
            },
            LayerAction::SetOpacity(index, opacity) => {
                self.set_layer_opacity(index, opacity);
            },
            LayerAction::SetVisible(index, visible) => {
                self.set_layer_visible(index, visible);
            },
            LayerAction::Rename(index, name) => {
                self.rename_layer(index, name);
            },
            LayerAction::SetActive(index) => {
                self.set_active_layer(index);
            },
        }
    }
}


/// The total number of committed strokes across the first `upto` layers.
pub open spec fn total_strokes_upto(layers: Seq<Layer>, upto: int) -> int
    decreases upto,
{
    if upto <= 0 {
        0
    } else {
        total_strokes_upto(layers, upto - 1) + layers[upto - 1].strokes@.len()
    }
}

/// A visible layer's strokes, each paired with the layer's opacity; an
/// invisible layer contributes none.
pub open spec fn strokes_of(l: Layer) -> Seq<(PaintStroke, u8)> {
    if l.visible {
        l.strokes@.map_values(|s: PaintStroke| (s, l.opacity))
    } else {
        Seq::<(PaintStroke, u8)>::empty()
    }
}

/// The visible strokes of the first `upto` layers, bottom to top.
pub open spec fn visible_strokes_upto(layers: Seq<Layer>, upto: int) -> Seq<(PaintStroke, u8)>
    decreases upto,
{
    if upto <= 0 {
        Seq::<(PaintStroke, u8)>::empty()
    } else {
        visible_strokes_upto(layers, upto - 1) + strokes_of(layers[upto - 1])
    }
}

/// Whether two stroke entries carry the same points, brush parameters, and
/// layer opacity.
pub open spec fn stroke_entry_like(a: (PaintStroke, u8), b: (PaintStroke, u8)) -> bool {
    &&& a.0.points@ == b.0.points@
    &&& a.0.color == b.0.color
    &&& a.0.stroke_width == b.0.stroke_width
    &&& a.1 == b.1
}

impl LayerManager {
    /// The total number of committed strokes across all layers, saturating
    /// at the machine limit.
    pub fn total_stroke_count(&self) -> (n: usize)
        ensures
            n as int == if total_strokes_upto(self.layers_seq(), self.layers_seq().len() as int)
                <= usize::MAX {
                total_strokes_upto(self.layers_seq(), self.layers_seq().len() as int)
            } else {
                usize::MAX as int
            },
    {
        let ghost lseq: Seq<Layer> = self.layers_seq();
        let cnt: usize = self.layers.len();
        let mut n: usize = 0;
        let mut i: usize = 0;
        while i < cnt
            invariant
                i <= cnt,
                cnt == lseq.len(),
                lseq == self.layers_seq(),
                n as int == if total_strokes_upto(lseq, i as int) <= usize::MAX {
                    total_strokes_upto(lseq, i as int)
                } else {
                    usize::MAX as int
                },
            decreases cnt - i,
        {
            let c: usize = self.layers[i].strokes.len();
            if n > usize::MAX - c {
                n = usize::MAX;
            } else {
                n = n + c;
            }
            i = i + 1;
        }
        n
    }

    /// The visible strokes of all layers, bottom to top in drawing order,
    /// each paired with its layer's opacity.
    pub fn get_visible_strokes(&self) -> (r: Vec<(PaintStroke, u8)>)
        ensures
            r@.len() == visible_strokes_upto(
                self.layers_seq(),
                self.layers_seq().len() as int,
            ).len(),
            forall|k: int|
                0 <= k < r@.len() ==> stroke_entry_like(
                    #[trigger] r@[k],
                    visible_strokes_upto(self.layers_seq(), self.layers_seq().len() as int)[k],
                ),
    {
        let ghost lseq: Seq<Layer> = self.layers_seq();
        let cnt: usize = self.layers.len();
        let mut out: Vec<(PaintStroke, u8)> = Vec::new();
        let mut i: usize = 0;
        while i < cnt
            invariant
                i <= cnt,
                cnt == lseq.len(),
                lseq == self.layers_seq(),
                out@.len() == visible_strokes_upto(lseq, i as int).len(),
                forall|k: int|
                    0 <= k < out@.len() ==> stroke_entry_like(
                        #[trigger] out@[k],
                        visible_strokes_upto(lseq, i as int)[k],
                    ),
            decreases cnt - i,
        {
            let ghost base: Seq<(PaintStroke, u8)> = visible_strokes_upto(lseq, i as int);
            let layer: &Layer = &self.layers[i];
            if layer.visible {
                let m: usize = layer.strokes.len();
                let mut j: usize = 0;
                while j < m
                    invariant
                        j <= m,
                        m == layer.strokes@.len(),
                        layer == lseq[i as int],
                        0 <= i < lseq.len(),
                        out@.len() == base.len() + j,
                        forall|k: int|
                            0 <= k < base.len() ==> stroke_entry_like(
                                #[trigger] out@[k],
                                base[k],
                            ),
                        forall|t: int|
                            0 <= t < j ==> stroke_entry_like(
                                #[trigger] out@[base.len() + t],
                                (layer.strokes@[t], layer.opacity),
                            ),
                    decreases m - j,
                {
                    let sc: PaintStroke = layer.strokes[j].clone();
                    out.push((sc, layer.opacity));
                    j = j + 1;
                }
            }
            proof {
                assert(visible_strokes_upto(lseq, i + 1 as int) == base + strokes_of(
                    lseq[i as int],
                ));
                if !lseq[i as int].visible {
                    assert(base + strokes_of(lseq[i as int]) =~= base);
                } else {
                    let layer_i = lseq[i as int];
                    assert forall|k: int| 0 <= k < out@.len() implies stroke_entry_like(
                        #[trigger] out@[k],
                        visible_strokes_upto(lseq, i + 1 as int)[k],
                    ) by {
                        if k >= base.len() {
                            let t = k - base.len();
                            assert(stroke_entry_like(
                                out@[base.len() + t],
                                (layer_i.strokes@[t], layer_i.opacity),
                            ));
                            assert(strokes_of(layer_i)[k - base.len()] == (
                                layer_i.strokes@[k - base.len()],
                                layer_i.opacity,
                            ));
                        }
                    }
                }
            }
            i = i + 1;
        }
        out
    }
}

/// A layer-panel request addressed to one layer, as the panel widgets raise
/// them.
#[derive(Debug, Clone)]
pub enum LayerPanelAction {
    Idle,
    AddLayer,
    DeleteLayer(usize),
    SetActiveLayer(usize),
    ToggleVisibility(usize),
    MoveLayerUp(usize),
    MoveLayerDown(usize),
    RenameLayer(usize, String),
    SetOpacity(usize, u8),
}

impl LayerManager {
    /// Dispatches a layer-panel request; malformed or stale requests
    /// degrade to no-ops, as in [`LayerManager::handle_action`].
    pub fn handle_layer_action(&mut self, action: LayerPanelAction)
        requires
            old(self).wf(),
        ensures
            final(self).wf(),
            match action {
                LayerPanelAction::Idle => *final(self) == *old(self),
                LayerPanelAction::AddLayer => {
                    if old(self).layers_seq().len() < MAX_LAYERS {
                        &&& final(self).canvas_w() == old(self).canvas_w()
                        &&& final(self).canvas_h() == old(self).canvas_h()
                        &&& final(self).layers_seq().len() == old(self).layers_seq().len() + 1
                        &&& final(self).layers_seq().subrange(
                            0,
                            old(self).layers_seq().len() as int,
                        ) == old(self).layers_seq()
                        &&& layer_blank(
                            final(self).layers_seq().last(),
                            default_layer_name(old(self).layers_seq().len() as int + 1),
                            old(self).canvas_w(),
                            old(self).canvas_h(),
                        )
                        &&& final(self).active() == old(self).layers_seq().len()
                    } else {
                        *final(self) == *old(self)
                    }
                },
                LayerPanelAction::DeleteLayer(index) => {
                    if old(self).layers_seq().len() > 1 && index < old(self).layers_seq().len() {
                        &&& final(self).canvas_w() == old(self).canvas_w()
                        &&& final(self).canvas_h() == old(self).canvas_h()
                        &&& final(self).layers_seq() == old(self).layers_seq().remove(index as int)
                        &&& final(self).active() == active_after_remove(
                            old(self).active(),
                            index as int,
                            old(self).layers_seq().len() - 1,
                        )
                    } else {
                        *final(self) == *old(self)
                    }
                },
                LayerPanelAction::SetActiveLayer(index) => {
                    &&& final(self).canvas_w() == old(self).canvas_w()
                    &&& final(self).canvas_h() == old(self).canvas_h()
                    &&& final(self).layers_seq() == old(self).layers_seq()
                    &&& final(self).active() == if index < old(self).layers_seq().len() {
                        index as int
                    } else {
                        old(self).active()
                    }
                },
                LayerPanelAction::ToggleVisibility(index) => {
                    if index < old(self).layers_seq().len() {
                        &&& final(self).canvas_w() == old(self).canvas_w()
                        &&& final(self).canvas_h() == old(self).canvas_h()
                        &&& final(self).active() == old(self).active()
                        &&& final(self).layers_seq() == old(self).layers_seq().update(
                            index as int,
                            Layer {
                                visible: !old(self).layers_seq()[index as int].visible,
                                ..old(self).layers_seq()[index as int]
                            },
                        )
                    } else {
                        *final(self) == *old(self)
                    }
                },
                LayerPanelAction::MoveLayerUp(index) => {
                    if index + 1 < old(self).layers_seq().len() {
                        &&& final(self).canvas_w() == old(self).canvas_w()
                        &&& final(self).canvas_h() == old(self).canvas_h()
                        &&& final(self).layers_seq() == swapped_layers(
                            old(self).layers_seq(),
                            index as int,
                        )
                        &&& final(self).active() == swap_active(old(self).active(), index as int)
                    } else {
                        *final(self) == *old(self)
                    }
                },
                LayerPanelAction::MoveLayerDown(index) => {
                    if 1 <= index < old(self).layers_seq().len() {
                        &&& final(self).canvas_w() == old(self).canvas_w()
                        &&& final(self).canvas_h() == old(self).canvas_h()
                        &&& final(self).layers_seq() == swapped_layers(
                            old(self).layers_seq(),
                            index as int - 1,
                        )
                        &&& final(self).active() == swap_active(
                            old(self).active(),
                            index as int - 1,
                        )
                    } else {
                        *final(self) == *old(self)
                    }
                },
                LayerPanelAction::RenameLayer(index, name) => {
                    if index < old(self).layers_seq().len() {
                        &&& final(self).canvas_w() == old(self).canvas_w()
                        &&& final(self).canvas_h() == old(self).canvas_h()
                        &&& final(self).active() == old(self).active()
                        &&& final(self).layers_seq() == old(self).layers_seq().update(
                            index as int,
                            Layer { name, ..old(self).layers_seq()[index as int] },
                        )
                    } else {
                        *final(self) == *old(self)
                    }
                },
                LayerPanelAction::SetOpacity(index, opacity) => {
                    if index < old(self).layers_seq().len() {
                        &&& final(self).canvas_w() == old(self).canvas_w()
                        &&& final(self).canvas_h() == old(self).canvas_h()
                        &&& final(self).active() == old(self).active()
                        &&& final(self).layers_seq() == old(self).layers_seq().update(
                            index as int,
                            Layer { opacity, ..old(self).layers_seq()[index as int] },
                        )
                    } else {
                        *final(self) == *old(self)
                    }
                },
            },
    {
        match action {
            LayerPanelAction::Idle => {},
            LayerPanelAction::AddLayer => {
                let count: usize = self.layer_count();
                if count < MAX_LAYERS {
                    let new_name: String = make_layer_name(count as u64 + 1);
                    self.add_layer(new_name);
                }
            },
            LayerPanelAction::DeleteLayer(index) => {
                self.remove_layer(index);
            },
            LayerPanelAction::SetActiveLayer(index) => {
                self.set_active_layer(index);
            },
            LayerPanelAction::ToggleVisibility(index) => {
                if index < self.layers.len() {
                    let v: bool = self.layers[index].visible;
                    self.set_layer_visible(index, !v);
                }
            },
            LayerPanelAction::MoveLayerUp(index) => {
                self.move_layer_up(index);
            },
            LayerPanelAction::MoveLayerDown(index) => {
                self.move_layer_down(index);
            },
            LayerPanelAction::RenameLayer(index, name) => {
                self.rename_layer(index, name);
            },
            LayerPanelAction::SetOpacity(index, opacity) => {
                self.set_layer_opacity(index, opacity);
            },
        }
    }
}


/// Transient state of the layer-panel rename editor: which layer, if any,
/// is being renamed, and the text typed so far.
#[derive(Debug, Clone)]
pub struct LayerRenameState {
    pub editing_layer: Option<usize>,
    pub temp_name: String,
}

impl Default for LayerRenameState {
    /// No rename is in progress initially.
    fn default() -> (s: LayerRenameState)
        ensures
            s.editing_layer is None,
            s.temp_name@ == Seq::<char>::empty(),
    {
        LayerRenameState { editing_layer: None, temp_name: String::new() }
    }
}


} // verus!
