//! Strokes and the paint engine: a state machine turning a pointer-event
//! stream into stroke lifecycle transitions.
//!
//! The engine is `Idle` (no stroke, `is_drawing` false) or `Drawing` (one
//! in-progress stroke, `is_drawing` true). A stroke freezes its color and
//! width at the moment it starts: later tool changes never affect it.

use vstd::prelude::*;
use crate::color::Color;
use crate::coverage::MAX_BRUSH;
use crate::pixmap::Pixmap;
use crate::raster::{
    points_in_range,
    rasterize_stroke,
    stamp_all,
    stroke_centers,
    Point,
    COORD_LIMIT,
};
use crate::layer_system::{layer_with_stroke, LayerManager};
use crate::tools::ToolSettings;

verus! {

/// A brush width forced into the accepted 1..=`MAX_BRUSH` range.
pub open spec fn clamped_width(w: int) -> int {
    if w < 1 {
        1
    } else if w > MAX_BRUSH {
        MAX_BRUSH as int
    } else {
        w
    }
}

/// A coordinate forced into the accepted sampling range.
pub open spec fn clamped_coord(c: int) -> int {
    if c < -COORD_LIMIT {
        -COORD_LIMIT as int
    } else if c > COORD_LIMIT {
        COORD_LIMIT as int
    } else {
        c
    }
}

/// One brush stroke: the sampled points in drawing order, and the brush
/// color and width frozen when the stroke started.
#[derive(Debug)]
pub struct PaintStroke {
    pub points: Vec<Point>,
    pub color: Color,
    pub stroke_width: u32,
}

impl PaintStroke {
    /// The width is in range and so is every sampled point.
    pub open spec fn wf(self) -> bool {
        &&& 1 <= self.stroke_width <= MAX_BRUSH
        &&& points_in_range(self.points@)
    }

    /// Starts an empty stroke with the given brush color and width; a width
    /// outside 1..=`MAX_BRUSH` is clamped into range.
    pub fn new(color: Color, width: u32) -> (s: PaintStroke)
        ensures
            s.wf(),
            s.points@.len() == 0,
            s.color == color,
            s.stroke_width as int == clamped_width(width as int),
    {
        let w: u32 = if width < 1 {
            1
        } else if width > MAX_BRUSH {
            MAX_BRUSH
        } else {
            width
        };
        PaintStroke { points: Vec::new(), color, stroke_width: w }
    }

    /// Appends a sampled point; coordinates far outside the canvas range are
    /// clamped so the rasterizer's arithmetic stays in bounds.
    pub fn add_point(&mut self, x: i32, y: i32)
        requires
            old(self).wf(),
        ensures
            final(self).wf(),
            final(self).color == old(self).color,
            final(self).stroke_width == old(self).stroke_width,
            final(self).points@ == old(self).points@.push(
                Point {
                    x: clamped_coord(x as int) as i32,
                    y: clamped_coord(y as int) as i32,
                },
            ),
    {
        let cx: i32 = if x < -COORD_LIMIT {
            -COORD_LIMIT
        } else if x > COORD_LIMIT {
            COORD_LIMIT
        } else {
            x
        };
        let cy: i32 = if y < -COORD_LIMIT {
            -COORD_LIMIT
        } else if y > COORD_LIMIT {
            COORD_LIMIT
        } else {
            y
        };
        self.points.push(Point { x: cx, y: cy });
    }

    /// Whether no point has been sampled yet.
    pub fn is_empty(&self) -> (r: bool)
        ensures
            r == (self.points@.len() == 0),
    {
        self.points.len() == 0
    }

    /// The number of sampled points.
    pub fn len(&self) -> (n: usize)
        ensures
            n == self.points@.len(),
    {
        self.points.len()
    }

    /// Rasterizes this stroke onto a surface: one anti-aliased circular
    /// stamp per sampled point plus interpolated stamps along each segment
    /// (see [`crate::raster`]). A stroke with no points changes nothing.
    pub fn draw_to_pixmap(&self, pixmap: &mut Pixmap)
        requires
            self.wf(),
            old(pixmap).wf(),
        ensures
            final(pixmap).wf(),
            final(pixmap).width == old(pixmap).width,
            final(pixmap).height == old(pixmap).height,
            final(pixmap).pixels@ == stamp_all(
                old(pixmap).pixels@,
                old(pixmap).width as int,
                stroke_centers(self.points@, self.stroke_width as int),
                self.stroke_width as int,
                self.color,
            ),
    {
        rasterize_stroke(pixmap, &self.points, self.stroke_width, self.color);
    }

    /// Copies the sampled points.
    fn clone_points(&self) -> (r: Vec<Point>)
        ensures
            r@ == self.points@,
    {
        let mut r: Vec<Point> = Vec::new();
        let n: usize = self.points.len();
        let mut i: usize = 0;
        while i < n
            invariant
                i <= n,
                n == self.points@.len(),
                r@ == self.points@.subrange(0, i as int),
            decreases n - i,
        {
            r.push(self.points[i]);
            proof {
                assert(r@ =~= self.points@.subrange(0, i + 1 as int));
            }
            i = i + 1;
        }
        proof {
            assert(r@ =~= self.points@);
        }
        r
    }
}

impl Clone for PaintStroke {
    /// A deep copy: the clone carries the same points, color, and width.
    fn clone(&self) -> (r: Self)
        ensures
            r.points@ == self.points@,
            r.color == self.color,
            r.stroke_width == self.stroke_width,
    {
        PaintStroke {
            points: self.clone_points(),
            color: self.color,
            stroke_width: self.stroke_width,
        }
    }
}

/// The stroke-lifecycle state machine: accumulates an in-progress stroke
/// between pointer down and pointer up.
#[derive(Debug)]
pub struct PaintEngine {
    pub width: u32,
    pub height: u32,
    pub current_stroke: Option<PaintStroke>,
    pub is_drawing: bool,
}

impl PaintEngine {
    /// Any in-progress stroke is well formed.
    pub open spec fn wf(self) -> bool {
        match self.current_stroke {
            Some(s) => s.wf(),
            None => true,
        }
    }

    /// Creates an idle engine for a canvas of the given size.
    pub fn new(width: u32, height: u32) -> (e: PaintEngine)
        ensures
            e.wf(),
            e.width == width,
            e.height == height,
            e.current_stroke is None,
            !e.is_drawing,
    {
        PaintEngine { width, height, current_stroke: None, is_drawing: false }
    }

    /// Pointer down: starts a new stroke seeded with one point. The brush
    /// color and width are read from the tool settings at this instant and
    /// frozen for the stroke's lifetime.
    pub fn start_stroke(&mut self, x: i32, y: i32, tools: &ToolSettings)
        ensures
            final(self).wf(),
            final(self).width == old(self).width,
            final(self).height == old(self).height,
            final(self).is_drawing,
            final(self).current_stroke is Some,
            final(self).current_stroke->0.color == tools.current_color_spec(),
            final(self).current_stroke->0.stroke_width as int == clamped_width(
                tools.brush_size as int,
            ),
            final(self).current_stroke->0.points@ == Seq::<Point>::empty().push(
                Point {
                    x: clamped_coord(x as int) as i32,
                    y: clamped_coord(y as int) as i32,
                },
            ),
    {
        let color: Color = tools.get_current_color();
        let mut stroke: PaintStroke = PaintStroke::new(color, tools.brush_size);
        stroke.add_point(x, y);
        proof {
            assert(stroke.points@ =~= Seq::<Point>::empty().push(
                Point {
                    x: clamped_coord(x as int) as i32,
                    y: clamped_coord(y as int) as i32,
                },
            ));
        }
        self.current_stroke = Some(stroke);
        self.is_drawing = true;
    }

    /// Pointer move: appends a point to the in-progress stroke, if any.
    pub fn continue_stroke(&mut self, x: i32, y: i32)
        requires
            old(self).wf(),
        ensures
            final(self).wf(),
            final(self).width == old(self).width,
            final(self).height == old(self).height,
            final(self).is_drawing == old(self).is_drawing,
            old(self).current_stroke is None ==> *final(self) == *old(self),
            old(self).current_stroke is Some ==> {
                &&& final(self).current_stroke is Some
                &&& final(self).current_stroke->0.color == old(self).current_stroke->0.color
                &&& final(self).current_stroke->0.stroke_width == old(
                    self,
                ).current_stroke->0.stroke_width
                &&& final(self).current_stroke->0.points@ == old(
                    self,
                ).current_stroke->0.points@.push(
                    Point {
                        x: clamped_coord(x as int) as i32,
                        y: clamped_coord(y as int) as i32,
                    },
                )
            },
    {
        match &mut self.current_stroke {
            Some(stroke) => {
                stroke.add_point(x, y);
            },
            None => {},
        }
    }

    /// Cancellation: discards the in-progress stroke without committing.
    pub fn cancel_stroke(&mut self)
        ensures
            final(self).wf(),
            final(self).width == old(self).width,
            final(self).height == old(self).height,
            final(self).current_stroke is None,
            !final(self).is_drawing,
    {
        self.current_stroke = None;
        self.is_drawing = false;
    }

    /// Records a new canvas size; the stroke state is unaffected.
    pub fn resize(&mut self, width: u32, height: u32)
        ensures
            *final(self) == (PaintEngine { width, height, ..*old(self) }),
    {
        self.width = width;
        self.height = height;
    }


    /// Pointer up: commits the in-progress stroke to the active layer,
    /// which rasterizes it and appends it to that layer's history, then
    /// returns to the idle state. A stroke holding a single point commits
    /// as a visible dot; with no stroke in progress, the stack is untouched.
    pub fn end_stroke(&mut self, layer_manager: &mut LayerManager)
        requires
            old(self).wf(),
            old(layer_manager).wf(),
        ensures
            final(self).wf(),
            final(self).width == old(self).width,
            final(self).height == old(self).height,
            final(self).current_stroke is None,
            !final(self).is_drawing,
            final(layer_manager).wf(),
            old(self).current_stroke is None ==> *final(layer_manager) == *old(layer_manager),
            old(self).current_stroke is Some ==> {
                &&& final(layer_manager).canvas_w() == old(layer_manager).canvas_w()
                &&& final(layer_manager).canvas_h() == old(layer_manager).canvas_h()
                &&& final(layer_manager).active() == old(layer_manager).active()
                &&& final(layer_manager).layers_seq().len() == old(
                    layer_manager,
                ).layers_seq().len()
                &&& layer_with_stroke(
                    old(layer_manager).layers_seq()[old(layer_manager).active()],
                    final(layer_manager).layers_seq()[old(layer_manager).active()],
                    old(self).current_stroke->0,
                )
                &&& forall|i: int|
                    0 <= i < old(layer_manager).layers_seq().len() && i != old(
                        layer_manager,
                    ).active() ==> final(layer_manager).layers_seq()[i] == old(
                        layer_manager,
                    ).layers_seq()[i]
            },
    {
        let taken: Option<PaintStroke> = self.current_stroke.take();
        match taken {
            Some(stroke) => {
                layer_manager.add_stroke_to_active(stroke);
            },
            None => {},
        }
        self.is_drawing = false;
    }

    /// Renders a live preview: the composited layer stack with the
    /// in-progress stroke, if any, drawn on top without committing it.
    pub fn render_preview(&self, layer_manager: &LayerManager) -> (r: Option<Pixmap>)
        requires
            self.wf(),
            layer_manager.wf(),
        ensures
            r is Some,
            r->Some_0.wf(),
            r->Some_0.width == layer_manager.canvas_w(),
            r->Some_0.height == layer_manager.canvas_h(),
            r->Some_0.pixels@ == match self.current_stroke {
                None => layer_manager.composite_spec(),
                Some(s) => stamp_all(
                    layer_manager.composite_spec(),
                    layer_manager.canvas_w(),
                    stroke_centers(s.points@, s.stroke_width as int),
                    s.stroke_width as int,
                    s.color,
                ),
            },
    {
        let preview: Option<Pixmap> = layer_manager.composite();
        match preview {
            Some(mut p) => {
                match &self.current_stroke {
                    Some(stroke) => {
                        stroke.draw_to_pixmap(&mut p);
                    },
                    None => {},
                }
                Some(p)
            },
            None => {
                proof {
                    assert(false);
                }
                None
            },
        }
    }

    /// Read-only access to the in-progress stroke, for live preview.
    pub fn get_current_stroke(&self) -> (r: Option<&PaintStroke>)
        ensures
            r is Some <==> self.current_stroke is Some,
            r is Some ==> *r->0 == self.current_stroke->0,
    {
        self.current_stroke.as_ref()
    }
}

} // verus!
