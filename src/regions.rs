//! The regions of the container, the single selection among them, and the
//! operations that split and select them.
use crate::geometry::{halves, lemma_split_partitions, PixelRect, Point, UnitRect};
use vstd::prelude::*;

verus! {

/// The digit `d` as a character.
pub open spec fn digit_char(d: int) -> char {
    if d == 0 {
        '0'
    } else if d == 1 {
        '1'
    } else if d == 2 {
        '2'
    } else if d == 3 {
        '3'
    } else if d == 4 {
        '4'
    } else if d == 5 {
        '5'
    } else if d == 6 {
        '6'
    } else if d == 7 {
        '7'
    } else if d == 8 {
        '8'
    } else {
        '9'
    }
}

/// `n` written in decimal, without leading zeros.
pub open spec fn decimal(n: nat) -> Seq<char>
    decreases n,
{
    if n < 10 {
        seq![digit_char(n as int)]
    } else {
        decimal(n / 10).push(digit_char((n % 10) as int))
    }
}

/// The label of the region at 1-based position `n`: `Box n`.
pub open spec fn box_label(n: nat) -> Seq<char> {
    seq!['B', 'o', 'x', ' '] + decimal(n)
}

/// The label of the first region.
pub open spec fn initial_label() -> Seq<char> {
    seq!['I', 'n', 'i', 't', 'i', 'a', 'l', ' ', 'B', 'o', 'x']
}

fn digit_str(d: usize) -> (s: &'static str)
    requires
        d < 10,
    ensures
        s@ == seq![digit_char(d as int)],
{
    if d == 0 {
        proof { reveal_strlit("0"); }
        "0"
    } else if d == 1 {
        proof { reveal_strlit("1"); }
        "1"
    } else if d == 2 {
        proof { reveal_strlit("2"); }
        "2"
    } else if d == 3 {
        proof { reveal_strlit("3"); }
        "3"
    } else if d == 4 {
        proof { reveal_strlit("4"); }
        "4"
    } else if d == 5 {
        proof { reveal_strlit("5"); }
        "5"
    } else if d == 6 {
        proof { reveal_strlit("6"); }
        "6"
    } else if d == 7 {
        proof { reveal_strlit("7"); }
        "7"
    } else if d == 8 {
        proof { reveal_strlit("8"); }
        "8"
    } else {
        proof { reveal_strlit("9"); }
        "9"
    }
}

fn append_decimal(s: &mut String, n: usize)
    ensures
        final(s)@ == old(s)@ + decimal(n as nat),
    decreases n,
{
    if n >= 10 {
        append_decimal(s, n / 10);
    }
    s.append(digit_str(n % 10));
    assert(s@ =~= old(s)@ + decimal(n as nat));
}

/// The label `Box n`.
pub fn make_box_label(n: usize) -> (s: String)
    ensures
        s@ == box_label(n as nat),
{
    let mut s = String::from_str("Box ");
    proof { reveal_strlit("Box "); }
    append_decimal(&mut s, n);
    s
}

/// A snapshot of one region: where it lies, whether it is the selected
/// one, and its label.
#[derive(Clone, Debug)]
pub struct BoxRegion {
    pub relative_rect: UnitRect,
    pub is_selected: bool,
    pub label: String,
}

/// What a region tree holds: the regions' rectangles and labels in order of
/// creation, and the position of the selected region.
pub struct RegionsModel {
    pub rects: Seq<UnitRect>,
    pub labels: Seq<Seq<char>>,
    pub selected: int,
}

impl RegionsModel {
    /// At least one region, one label each, a selected region that exists,
    /// and every rectangle inside the unit square.
    pub open spec fn wf(self) -> bool {
        &&& self.rects.len() >= 1
        &&& self.labels.len() == self.rects.len()
        &&& 0 <= self.selected < self.rects.len()
        &&& forall|i: int| 0 <= i < self.rects.len() ==> #[trigger] self.rects[i].wf()
    }
}

/// `s` is the snapshot of `m`: one entry per region, in order, with the
/// selection flag set on the selected region alone.
pub open spec fn snapshots_of(m: RegionsModel, s: Seq<BoxRegion>) -> bool {
    &&& s.len() == m.rects.len()
    &&& forall|i: int|
        0 <= i < s.len() ==> {
            &&& (#[trigger] s[i]).relative_rect == m.rects[i]
            &&& s[i].is_selected == (i == m.selected)
            &&& s[i].label@ == m.labels[i]
        }
}

/// Exactly one entry of `s` is selected.
pub open spec fn exactly_one_selected(s: Seq<BoxRegion>) -> bool {
    exists|k: int|
        0 <= k < s.len() && s[k].is_selected && forall|i: int|
            0 <= i < s.len() && (#[trigger] s[i]).is_selected ==> i == k
}

/// The last rectangle of `rects` that contains `p`, if any.
pub open spec fn last_hit(rects: Seq<PixelRect>, p: Point) -> Option<int>
    decreases rects.len(),
{
    if rects.len() == 0 {
        None
    } else if rects.last().spec_contains(p) {
        Some(rects.len() - 1)
    } else {
        last_hit(rects.drop_last(), p)
    }
}

/// `m` after a split of its selected region in a container of `cw` by `ch`
/// pixels.
pub open spec fn split_model(m: RegionsModel, cw: int, ch: int) -> RegionsModel {
    let s = m.selected;
    let (a, b) = halves(m.rects[s], cw, ch);
    RegionsModel {
        rects: m.rects.update(s, a).push(b),
        labels: m.labels.update(s, box_label((s + 1) as nat)).push(box_label(m.rects.len() + 1)),
        selected: s,
    }
}

/// `m` after a press at `p` on the absolute rectangles `rects`.
pub open spec fn select_model(m: RegionsModel, rects: Seq<PixelRect>, p: Point) -> RegionsModel {
    RegionsModel {
        rects: m.rects,
        labels: m.labels,
        selected: match last_hit(rects, p) {
            Some(k) => k,
            None => m.selected,
        },
    }
}

/// The regions of a container and the one selected among them.
pub struct RegionTree {
    rects: Vec<UnitRect>,
    labels: Vec<String>,
    selected: usize,
}

impl View for RegionTree {
    type V = RegionsModel;

    closed spec fn view(&self) -> RegionsModel {
        RegionsModel {
            rects: self.rects@,
            labels: self.labels@.map_values(|l: String| l@),
            selected: self.selected as int,
        }
    }
}

impl RegionTree {
    /// One region covering the whole container, selected, labelled
    /// `Initial Box`.
    pub fn initial() -> (t: RegionTree)
        ensures
            t@.wf(),
            t@.rects == seq![UnitRect::full_spec()],
            t@.labels == seq![initial_label()],
            t@.selected == 0,
    {
        let mut rects: Vec<UnitRect> = Vec::new();
        rects.push(UnitRect::full());
        let mut labels: Vec<String> = Vec::new();
        proof { reveal_strlit("Initial Box"); }
        let first = String::from_str("Initial Box");
        assert(first@ =~= initial_label());
        labels.push(first);
        let t = RegionTree { rects, labels, selected: 0 };
        assert(t@.rects =~= seq![UnitRect::full_spec()]);
        assert(t@.labels =~= seq![initial_label()]);
        t
    }

    /// The number of regions.
    pub fn len(&self) -> (r: usize)
        ensures
            r == self@.rects.len(),
    {
        self.rects.len()
    }

    /// The position of the selected region.
    pub fn selected_index(&self) -> (r: usize)
        ensures
            r == self@.selected,
    {
        self.selected
    }

    /// The rectangle of the region at `i`.
    pub fn rect(&self, i: usize) -> (r: UnitRect)
        requires
            i < self@.rects.len(),
        ensures
            r == self@.rects[i as int],
    {
        self.rects[i]
    }

    /// A snapshot of every region, in order.
    pub fn regions(&self) -> (r: Vec<BoxRegion>)
        requires
            self@.wf(),
        ensures
            snapshots_of(self@, r@),
    {
        let mut out: Vec<BoxRegion> = Vec::new();
        let mut i: usize = 0;
        while i < self.rects.len()
            invariant
                self@.wf(),
                i <= self.rects@.len(),
                out@.len() == i,
                forall|j: int|
                    0 <= j < i ==> {
                        &&& (#[trigger] out@[j]).relative_rect == self@.rects[j]
                        &&& out@[j].is_selected == (j == self@.selected)
                        &&& out@[j].label@ == self@.labels[j]
                    },
            decreases self.rects@.len() - i,
        {
            let label = self.labels[i].clone();
            out.push(
                BoxRegion { relative_rect: self.rects[i], is_selected: i == self.selected, label },
            );
            i = i + 1;
        }
        out
    }

    /// Splits the selected region in two along the axis on which it is
    /// longer in a container of `container_w` by `container_h` pixels. The
    /// first half stays in place, stays selected and is labelled by its
    /// position; the second half is appended, unselected, labelled by the
    /// new number of regions.
    pub fn split(&mut self, container_w: u64, container_h: u64)
        requires
            old(self)@.wf(),
        ensures
            final(self)@.wf(),
            final(self)@ == split_model(old(self)@, container_w as int, container_h as int),
    {
        let s = self.selected;
        let (a, b) = self.rects[s].split_halves(container_w, container_h);
        self.rects.set(s, a);
        self.rects.push(b);
        let n = self.rects.len();
        self.labels.set(s, make_box_label(s + 1));
        self.labels.push(make_box_label(n));
        proof {
            let old_m = old(self)@;
            assert(self@.rects =~= old_m.rects.update(s as int, a).push(b));
            assert(self@.labels =~= old_m.labels.update(s as int, box_label((s + 1) as nat)).push(
                box_label(n as nat),
            ));
        }
    }

    /// Selects the last region whose rectangle in `rects` contains `p`;
    /// leaves the selection as it is when none does. `rects` holds one
    /// absolute rectangle per region, in order.
    pub fn select_at(&mut self, p: Point, rects: &Vec<PixelRect>)
        requires
            old(self)@.wf(),
            rects@.len() == old(self)@.rects.len(),
        ensures
            final(self)@.wf(),
            final(self)@ == select_model(old(self)@, rects@, p),
    {
        let mut hit: Option<usize> = None;
        let mut i: usize = 0;
        while i < rects.len()
            invariant
                i <= rects@.len(),
                match hit {
                    Some(k) => last_hit(rects@.take(i as int), p) == Some(k as int),
                    None => last_hit(rects@.take(i as int), p) is None,
                },
            decreases rects@.len() - i,
        {
            assert(rects@.take(i + 1).drop_last() =~= rects@.take(i as int));
            if rects[i].contains(p) {
                hit = Some(i);
            }
            i = i + 1;
        }
        assert(rects@.take(i as int) =~= rects@);
        proof {
            lemma_last_hit(rects@, p);
        }
        match hit {
            Some(k) => {
                self.selected = k;
            },
            None => {},
        }
    }
}

/// The hit is the last rectangle that contains the point: it contains it,
/// no later one does, and there is none only when no rectangle contains it.
pub proof fn lemma_last_hit(rects: Seq<PixelRect>, p: Point)
    ensures
        match last_hit(rects, p) {
            Some(k) => {
                &&& 0 <= k < rects.len()
                &&& rects[k].spec_contains(p)
                &&& forall|j: int| k < j < rects.len() ==> !(#[trigger] rects[j]).spec_contains(p)
            },
            None => forall|j: int| 0 <= j < rects.len() ==> !(#[trigger] rects[j]).spec_contains(p),
        },
    decreases rects.len(),
{
    if rects.len() > 0 && !rects.last().spec_contains(p) {
        let rest = rects.drop_last();
        lemma_last_hit(rest, p);
        match last_hit(rest, p) {
            Some(k) => {
                assert forall|j: int| k < j < rects.len() implies !(#[trigger] rects[j]).spec_contains(p) by {
                    if j < rects.len() - 1 {
                        assert(rects[j] == rest[j]);
                    }
                }
            },
            None => {
                assert forall|j: int| 0 <= j < rects.len() implies !(#[trigger] rects[j]).spec_contains(p) by {
                    if j < rects.len() - 1 {
                        assert(rects[j] == rest[j]);
                    }
                }
            },
        }
    }
}

/// In every state that the operations reach, exactly one region is selected.
pub proof fn lemma_exactly_one_selected(m: RegionsModel, s: Seq<BoxRegion>)
    requires
        m.wf(),
        snapshots_of(m, s),
    ensures
        exactly_one_selected(s),
{
    assert(s[m.selected].is_selected);
}

/// Splitting and selecting keep a well-formed collection well formed: the
/// selection always names an existing region, so exactly one is selected in
/// every reachable state.
pub proof fn lemma_operations_keep_wf(m: RegionsModel, cw: int, ch: int, rects: Seq<PixelRect>, p: Point)
    requires
        m.wf(),
    ensures
        split_model(m, cw, ch).wf(),
        rects.len() == m.rects.len() ==> select_model(m, rects, p).wf(),
{
    lemma_split_partitions(m.rects[m.selected], cw, ch);
    lemma_last_hit(rects, p);
    let m1 = split_model(m, cw, ch);
    assert forall|i: int| 0 <= i < m1.rects.len() implies #[trigger] m1.rects[i].wf() by {
        if i < m.rects.len() && i != m.selected {
            assert(m1.rects[i] == m.rects[i]);
        }
    }
}

} // verus!
