//! One update cycle of the overlay: input in, the boxes to draw out.
use crate::geometry::{absolute, calculate_absolute_rect, PixelRect, Point, UnitRect};
use crate::regions::{initial_label, select_model, snapshots_of, split_model, RegionTree, RegionsModel};
use crate::shader::{gradient, GradientCache, Rgba};
use vstd::prelude::*;

verus! {

/// The number of colour bands in each border gradient.
pub const GRADIENT_STEPS: usize = 20;

/// The gap, in pixels, between a region's edge and the border drawn for it.
pub const MARGIN: i64 = 10;

/// The top and bottom border colours of a selected region (magenta to cyan)
/// or of an unselected one (dark magenta to dark teal).
pub open spec fn palette_spec(selected: bool) -> (Rgba, Rgba) {
    if selected {
        (Rgba { r: 255, g: 0, b: 255, a: 255 }, Rgba { r: 0, g: 255, b: 255, a: 255 })
    } else {
        (Rgba { r: 64, g: 0, b: 64, a: 255 }, Rgba { r: 0, g: 64, b: 64, a: 255 })
    }
}

/// The top and bottom border colours for a region.
pub fn palette(selected: bool) -> (r: (Rgba, Rgba))
    ensures
        r == palette_spec(selected),
{
    if selected {
        (Rgba::from_rgb(255, 0, 255), Rgba::from_rgb(0, 255, 255))
    } else {
        (Rgba::from_rgb(64, 0, 64), Rgba::from_rgb(0, 64, 64))
    }
}

/// The rectangle on which each region's border is drawn and hit-tested:
/// the region placed in `container`, moved inward by `MARGIN`.
pub open spec fn border_rects(m: RegionsModel, container: PixelRect) -> Seq<PixelRect> {
    Seq::new(m.rects.len(), |i: int| absolute(m.rects[i], container).shrunk(MARGIN as int))
}

/// What the surroundings report for one cycle.
#[derive(Clone, Copy, Debug)]
pub struct FrameInput {
    /// The screen area available to the overlay.
    pub container: PixelRect,
    /// The split key went down since the last cycle.
    pub split_pressed: bool,
    /// A pointer button went down since the last cycle.
    pub pointer_pressed: bool,
    /// Where the pointer is, if it is over the overlay.
    pub pointer: Option<Point>,
}

/// One region as it is to be drawn.
pub struct DrawBox {
    pub rect: PixelRect,
    pub selected: bool,
    pub label: String,
    pub top: Rgba,
    pub bottom: Rgba,
    /// The border colours from top to bottom.
    pub gradient: Vec<Rgba>,
}

/// The state the overlay keeps from one cycle to the next.
pub struct Overlay {
    tree: RegionTree,
    gradients: GradientCache,
}

/// The regions after the input of one cycle: first a split if one was
/// requested, then a selection if a press landed on a region.
pub open spec fn after_input(m: RegionsModel, input: FrameInput) -> RegionsModel {
    let w = input.container.max_x - input.container.min_x;
    let h = input.container.max_y - input.container.min_y;
    let m1 = if input.split_pressed {
        split_model(m, w, h)
    } else {
        m
    };
    if input.pointer_pressed && input.pointer is Some {
        select_model(m1, border_rects(m1, input.container), input.pointer->Some_0)
    } else {
        m1
    }
}

impl Overlay {
    /// The regions.
    pub closed spec fn regions_model(&self) -> RegionsModel {
        self.tree@
    }

    pub closed spec fn wf(&self) -> bool {
        &&& self.tree@.wf()
        &&& self.gradients.wf()
        &&& self.gradients.steps() == GRADIENT_STEPS
    }

    /// The start-up state: one region over the whole screen, selected.
    pub fn new() -> (o: Overlay)
        ensures
            o.wf(),
            o.regions_model().rects == seq![UnitRect::full_spec()],
            o.regions_model().labels == seq![initial_label()],
            o.regions_model().selected == 0,
    {
        let tree = RegionTree::initial();
        let gradients = GradientCache::with_steps(GRADIENT_STEPS);
        Overlay { tree, gradients }
    }

    /// The regions, read-only.
    pub fn tree(&self) -> (t: &RegionTree)
        ensures
            t@ == self.regions_model(),
    {
        &self.tree
    }

    /// Each region's border rectangle in `container`, in order.
    pub fn border_rects(&self, container: PixelRect) -> (r: Vec<PixelRect>)
        requires
            self.wf(),
            container.is_screen(),
        ensures
            r@ == border_rects(self.regions_model(), container),
    {
        let n = self.tree.len();
        let mut out: Vec<PixelRect> = Vec::new();
        let mut i: usize = 0;
        while i < n
            invariant
                self.wf(),
                container.is_screen(),
                n == self.tree@.rects.len(),
                i <= n,
                out@ == border_rects(self.tree@, container).take(i as int),
            decreases n - i,
        {
            let rel = self.tree.rect(i);
            let abs = calculate_absolute_rect(rel, container);
            out.push(abs.shrink(MARGIN));
            i = i + 1;
            assert(out@ =~= border_rects(self.tree@, container).take(i as int));
        }
        assert(out@ =~= border_rects(self.tree@, container));
        out
    }

    /// Runs one cycle: applies the input, then lists every region to draw,
    /// in order, with its border rectangle, label and gradient.
    pub fn update(&mut self, input: FrameInput) -> (r: Vec<DrawBox>)
        requires
            old(self).wf(),
            input.container.is_screen(),
        ensures
            final(self).wf(),
            final(self).regions_model() == after_input(old(self).regions_model(), input),
            ({
                let m = final(self).regions_model();
                let rects = border_rects(m, input.container);
                &&& r@.len() == m.rects.len()
                &&& forall|i: int|
                    0 <= i < r@.len() ==> {
                        &&& (#[trigger] r@[i]).rect == rects[i]
                        &&& r@[i].selected == (i == m.selected)
                        &&& r@[i].label@ == m.labels[i]
                        &&& (r@[i].top, r@[i].bottom) == palette_spec(i == m.selected)
                        &&& r@[i].gradient@ == gradient(r@[i].top, r@[i].bottom, GRADIENT_STEPS as nat)
                    }
            }),
    {
        let c = input.container;
        if input.split_pressed {
            self.tree.split((c.max_x - c.min_x) as u64, (c.max_y - c.min_y) as u64);
        }
        if input.pointer_pressed {
            match input.pointer {
                Some(p) => {
                    let rects = self.border_rects(c);
                    self.tree.select_at(p, &rects);
                },
                None => {},
            }
        }
        let ghost m = self.tree@;
        assert(m == after_input(old(self).regions_model(), input));
        let rects = self.border_rects(c);
        let snaps = self.tree.regions();
        let mut out: Vec<DrawBox> = Vec::new();
        let mut i: usize = 0;
        while i < snaps.len()
            invariant
                self.wf(),
                self.tree@ == m,
                snapshots_of(self.tree@, snaps@),
                rects@ == border_rects(self.tree@, c),
                i <= snaps@.len(),
                out@.len() == i,
                forall|j: int|
                    0 <= j < i ==> {
                        &&& (#[trigger] out@[j]).rect == rects@[j]
                        &&& out@[j].selected == (j == self.tree@.selected)
                        &&& out@[j].label@ == self.tree@.labels[j]
                        &&& (out@[j].top, out@[j].bottom) == palette_spec(j == self.tree@.selected)
                        &&& out@[j].gradient@ == gradient(out@[j].top, out@[j].bottom, GRADIENT_STEPS as nat)
                    },
            decreases snaps@.len() - i,
        {
            let snap = &snaps[i];
            let (top, bottom) = palette(snap.is_selected);
            let g = self.gradients.get_or_create_gradient(top, bottom);
            let label = snap.label.clone();
            out.push(DrawBox { rect: rects[i], selected: snap.is_selected, label, top, bottom, gradient: g });
            i = i + 1;
        }
        out
    }
}

} // verus!
