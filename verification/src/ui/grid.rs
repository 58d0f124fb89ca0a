//! Packing of titled cells into horizontal bands of a pane: bands are
//! stacked top to bottom, spare rows are handed out by each band's rules,
//! and the cells of a band share its width.
use vstd::prelude::*;
use crate::ui::layout::{apart, greedy_split, has_fill, lemma_fills_total, lemma_greedy_split, lemma_tiled_ordered, rect_contains, sat_add16, split, split_fits, within, Fit, Panel, Rect};

verus! {

/// What a cell draws.
#[derive(Debug, Clone, Copy, PartialEq, Eq, Structural)]
pub enum CellKind {
    Graph,
    Spark,
    Cluster,
    List,
}

/// The title line of a cell, and the box a click on it jumps to.
#[derive(Debug, PartialEq, Eq)]
pub struct CellTitle {
    pub label: &'static str,
    pub value: Option<String>,
    pub hop: Option<Panel>,
}

impl Clone for CellTitle {
    fn clone(&self) -> (c: Self)
        ensures
            c.label@ == self.label@,
            c.hop == self.hop,
    {
        CellTitle { label: self.label, value: self.value.clone(), hop: self.hop }
    }
}

/// One cell a band asks for: its minimum size `(width, height)`, its share
/// of the band's width, and whether it exists at all.
#[derive(Debug, PartialEq, Eq)]
pub struct CellSpec {
    pub id: u8,
    pub kind: CellKind,
    pub title: CellTitle,
    pub min: (u16, u16),
    pub weight: u16,
    pub present: bool,
}

impl Clone for CellSpec {
    fn clone(&self) -> (c: Self)
        ensures
            c.id == self.id,
            c.kind == self.kind,
            c.min == self.min,
            c.weight == self.weight,
            c.present == self.present,
            c.title.hop == self.title.hop,
    {
        CellSpec {
            id: self.id,
            kind: self.kind,
            title: self.title.clone(),
            min: self.min,
            weight: self.weight,
            present: self.present,
        }
    }
}

/// A horizontal band of cells with its rules for height.
#[derive(Debug, Clone, PartialEq, Eq)]
pub struct Band {
    pub min_height: u16,
    pub max_height: Option<u16>,
    pub grow_to: Option<u16>,
    pub take_leftover: bool,
    pub cells: Vec<CellSpec>,
}

impl Band {
    /// A band of the given minimum height that neither grows nor takes
    /// spare rows.
    pub fn new(min_height: u16, cells: Vec<CellSpec>) -> (b: Self)
        ensures
            b.min_height == min_height,
            b.max_height is None,
            b.grow_to is None,
            !b.take_leftover,
            b.cells@ == cells@,
    {
        Band { min_height, max_height: None, grow_to: None, take_leftover: false, cells }
    }
}

/// A cell that found room, with the kind it can be drawn as there.
#[derive(Debug, Clone, Copy, PartialEq, Eq, Structural)]
pub struct Placed {
    pub id: u8,
    pub kind: CellKind,
    pub rect: Rect,
    pub hop: Option<Panel>,
}

/// The cells placed in a pane, band by band, left to right.
#[derive(Debug, Clone, PartialEq, Eq)]
pub struct Pack {
    pub cells: Vec<Placed>,
}

/// `r` spans `band`'s rows exactly and lies within its columns.
pub open spec fn in_band(r: Rect, band: Rect) -> bool {
    &&& r.y == band.y && r.height == band.height
    &&& band.x <= r.x && r.x + r.width <= band.x + band.width
}

/// `a` spans the same rows as `b`, or lies wholly above it.
pub open spec fn same_rows_or_above(a: Rect, b: Rect) -> bool {
    (a.y == b.y && a.height == b.height) || a.y + a.height <= b.y
}

/// The kind a cell of `kind` is drawn as in a slot `height` rows tall: a
/// graph shrinks to a spark below four rows; nothing fits below three.
pub open spec fn resolve_kind_spec(kind: CellKind, height: u16) -> Option<CellKind> {
    match kind {
        CellKind::Graph => if height >= 4 {
            Some(CellKind::Graph)
        } else if height >= 3 {
            Some(CellKind::Spark)
        } else {
            None
        },
        CellKind::Spark => if height >= 3 { Some(CellKind::Spark) } else { None },
        CellKind::Cluster => if height >= 4 { Some(CellKind::Cluster) } else { None },
        CellKind::List => if height >= 3 { Some(CellKind::List) } else { None },
    }
}

fn resolve_kind(kind: CellKind, height: u16) -> (r: Option<CellKind>)
    ensures
        r == resolve_kind_spec(kind, height),
{
    match kind {
        CellKind::Graph => if height >= 4 {
            Some(CellKind::Graph)
        } else if height >= 3 {
            Some(CellKind::Spark)
        } else {
            None
        },
        CellKind::Spark => if height >= 3 { Some(CellKind::Spark) } else { None },
        CellKind::Cluster => if height >= 4 { Some(CellKind::Cluster) } else { None },
        CellKind::List => if height >= 3 { Some(CellKind::List) } else { None },
    }
}

/// Indices, in order, of the present cells among the first `n`.
pub open spec fn present_upto(cells: Seq<CellSpec>, n: int) -> Seq<usize>
    decreases n,
{
    if n <= 0 {
        Seq::empty()
    } else {
        let rest = present_upto(cells, n - 1);
        if cells[n - 1].present { rest.push((n - 1) as usize) } else { rest }
    }
}

/// Indices, in order, of the present cells.
pub open spec fn present_idx(cells: Seq<CellSpec>) -> Seq<usize> {
    present_upto(cells, cells.len() as int)
}

/// Every index of `present_upto(cells, n)` names a present cell below `n`.
proof fn lemma_present_upto(cells: Seq<CellSpec>, n: int)
    requires
        0 <= n <= cells.len(),
        cells.len() <= usize::MAX,
    ensures
        present_upto(cells, n).len() <= n,
        forall|k: int|
            #![trigger present_upto(cells, n)[k]]
            0 <= k < present_upto(cells, n).len() ==> present_upto(cells, n)[k] < n
                && cells[present_upto(cells, n)[k] as int].present,
    decreases n,
{
    if n > 0 {
        lemma_present_upto(cells, n - 1);
        let rest = present_upto(cells, n - 1);
        assert forall|k: int| 0 <= k < present_upto(cells, n).len() implies present_upto(cells, n)[k]
            < n && cells[present_upto(cells, n)[k] as int].present by {
            if k < rest.len() {
                assert(present_upto(cells, n)[k] == rest[k]);
            }
        }
    }
}

fn present_indices(cells: &Vec<CellSpec>) -> (r: Vec<usize>)
    ensures
        r@ == present_idx(cells@),
        r@.len() <= cells@.len(),
        forall|k: int|
            #![trigger r@[k]]
            0 <= k < r@.len() ==> r@[k] < cells@.len() && cells@[r@[k] as int].present,
{
    let mut r: Vec<usize> = Vec::new();
    let mut i: usize = 0;
    while i < cells.len()
        invariant
            i <= cells@.len(),
            r@ == present_upto(cells@, i as int),
        decreases cells@.len() - i,
    {
        if cells[i].present {
            r.push(i);
        }
        i = i + 1;
    }
    proof {
        lemma_present_upto(cells@, cells@.len() as int);
    }
    r
}

/// The width shares of the cells `idx`: each weight, at least one.
pub open spec fn fill_fits(cells: Seq<CellSpec>, idx: Seq<usize>) -> Seq<Fit> {
    Seq::new(
        idx.len(),
        |i: int|
            Fit::Fill(
                if cells[idx[i] as int].weight < 1 {
                    1u16
                } else {
                    cells[idx[i] as int].weight
                },
            ),
    )
}

/// The slots of `n` cells across `area`: none for none, the whole area
/// for a lone cell, and what a split by weight gave (`trial`) for several.
pub open spec fn slots_for(area: Rect, n: nat, trial: Seq<Rect>) -> Seq<Rect> {
    if n == 0 {
        Seq::empty()
    } else if n == 1 {
        seq![area]
    } else {
        trial
    }
}

/// What the splits of `band`'s `rect` gave, by the number of cells split:
/// for `n` from 2 up to the number of present cells, a row split of `rect`
/// by the weights of the first `n` present cells.
pub open spec fn band_trials_ok(band: Band, rect: Rect, t: spec_fn(nat) -> Seq<Rect>) -> bool {
    forall|n: nat|
        #![trigger t(n)]
        2 <= n <= present_idx(band.cells@).len() ==> split_fits(
            false,
            fill_fits(band.cells@, present_idx(band.cells@).take(n as int)),
            rect,
            t(n),
        )
}

/// Slots that one split by weights gave a band of `rect` follow one another
/// from left to right without overlapping, when the band ends inside `u16`
/// columns.
proof fn lemma_slots_ordered(cells: Seq<CellSpec>, idx: Seq<usize>, rect: Rect, slots: Seq<Rect>)
    requires
        idx.len() >= 1,
        split_fits(false, fill_fits(cells, idx), rect, slots),
        rect.x + rect.width <= u16::MAX,
    ensures
        forall|a: int, b: int|
            #![trigger slots[a], slots[b]]
            0 <= a < b < slots.len() ==> slots[a].x + slots[a].width <= slots[b].x,
{
    let fits = fill_fits(cells, idx);
    lemma_fills_total(fits);
    assert(fits[0] is Fill);
    assert(has_fill(fits));
    assert forall|a: int, b: int| #![trigger slots[a], slots[b]] 0 <= a < b < slots.len() implies slots[a].x
        + slots[a].width <= slots[b].x by {
        lemma_tiled_ordered(false, rect, slots, a, b);
    }
}

/// For every split of `rect`, the first slot taking it all.
pub open spec fn greedy_trials(rect: Rect) -> spec_fn(nat) -> Seq<Rect> {
    |n: nat| greedy_split(false, n, rect)
}

proof fn lemma_greedy_trials(band: Band, rect: Rect)
    ensures
        band_trials_ok(band, rect, greedy_trials(rect)),
{
    let idx = present_idx(band.cells@);
    assert forall|n: nat| #![trigger greedy_trials(rect)(n)] 2 <= n <= idx.len() implies split_fits(
        false,
        fill_fits(band.cells@, idx.take(n as int)),
        rect,
        greedy_trials(rect)(n),
    ) by {
        let fits = fill_fits(band.cells@, idx.take(n as int));
        assert(fits.len() == n);
        lemma_greedy_split(false, fits, rect);
    }
}

/// `t` with the split into `n` slots replaced by `s`.
pub open spec fn with_trial(t: spec_fn(nat) -> Seq<Rect>, n: nat, s: Seq<Rect>) -> spec_fn(nat) -> Seq<Rect> {
    |m: nat| if m == n { s } else { t(m) }
}

fn split_fill(area: Rect, cells: &Vec<CellSpec>, idx: &Vec<usize>) -> (r: Vec<Rect>)
    requires
        forall|k: int| #![trigger idx@[k]] 0 <= k < idx@.len() ==> idx@[k] < cells@.len(),
    ensures
        idx@.len() == 1 ==> r@ == seq![area],
        idx@.len() >= 2 ==> split_fits(false, fill_fits(cells@, idx@), area, r@),
        r@.len() == idx@.len(),
        forall|k: int| #![trigger r@[k]] 0 <= k < r@.len() ==> in_band(r@[k], area),
{
    if idx.len() == 0 {
        Vec::new()
    } else if idx.len() == 1 {
        let r = vec![area];
        assert(r@ =~= seq![area]);
        r
    } else {
        let mut fits: Vec<Fit> = Vec::new();
        let mut i: usize = 0;
        while i < idx.len()
            invariant
                i <= idx@.len(),
                forall|k: int| #![trigger idx@[k]] 0 <= k < idx@.len() ==> idx@[k] < cells@.len(),
                fits@ =~= fill_fits(cells@, idx@).take(i as int),
            decreases idx@.len() - i,
        {
            let w = cells[idx[i]].weight;
            fits.push(Fit::Fill(if w < 1 { 1 } else { w }));
            i = i + 1;
        }
        assert(fits@ =~= fill_fits(cells@, idx@));
        split(false, &fits, area)
    }
}

/// Every cell of `idx` gets at least its minimum width in `slots`.
pub open spec fn wide_enough(cells: Seq<CellSpec>, idx: Seq<usize>, slots: Seq<Rect>) -> bool {
    idx.len() == 1 || forall|i: int|
        #![trigger slots[i]]
        0 <= i < idx.len() ==> slots[i].width >= cells[idx[i] as int].min.0
}

/// How many of the cells `idx` stay in a band whose splits gave `t`: cells
/// are dropped from the right until the rest are each wide enough (one
/// always stays).
pub open spec fn fit_count(cells: Seq<CellSpec>, idx: Seq<usize>, t: spec_fn(nat) -> Seq<Rect>) -> int
    decreases idx.len(),
{
    if idx.len() <= 1 {
        idx.len() as int
    } else if wide_enough(cells, idx, t(idx.len())) {
        idx.len() as int
    } else {
        fit_count(cells, idx.drop_last(), t)
    }
}

/// The placed cells among the first `n` of `kept`, given their slots.
pub open spec fn placements(cells: Seq<CellSpec>, kept: Seq<usize>, slots: Seq<Rect>, n: int) -> Seq<
    Placed,
>
    decreases n,
{
    if n <= 0 {
        Seq::empty()
    } else {
        let rest = placements(cells, kept, slots, n - 1);
        let c = cells[kept[n - 1] as int];
        match resolve_kind_spec(c.kind, slots[n - 1].height) {
            Some(kind) => rest.push(Placed { id: c.id, kind, rect: slots[n - 1], hop: c.title.hop }),
            None => rest,
        }
    }
}

/// The cells of `band` placed across `rect`, whose splits gave `t`.
pub open spec fn band_cells(band: Band, rect: Rect, t: spec_fn(nat) -> Seq<Rect>) -> Seq<Placed> {
    let cells = band.cells@;
    let idx = present_idx(cells);
    if idx.len() == 0 || rect.height == 0 || rect.width == 0 {
        Seq::empty()
    } else {
        let kept = idx.take(fit_count(cells, idx, t));
        placements(cells, kept, slots_for(rect, kept.len(), t(kept.len())), kept.len() as int)
    }
}

proof fn lemma_fit_count(cells: Seq<CellSpec>, idx: Seq<usize>, t: spec_fn(nat) -> Seq<Rect>)
    requires
        idx.len() >= 1,
    ensures
        1 <= fit_count(cells, idx, t) <= idx.len(),
    decreases idx.len(),
{
    if idx.len() > 1 && !wide_enough(cells, idx, t(idx.len())) {
        lemma_fit_count(cells, idx.drop_last(), t);
    }
}

/// Where every longer prefix of `idx` was too narrow and the prefix of
/// `n` is wide enough (or alone), `n` cells stay.
proof fn lemma_fit_stops(cells: Seq<CellSpec>, idx: Seq<usize>, t: spec_fn(nat) -> Seq<Rect>, n: nat)
    requires
        1 <= n <= idx.len(),
        n == 1 || wide_enough(cells, idx.take(n as int), t(n)),
        forall|m: nat| #![trigger t(m)] n < m <= idx.len() ==> !wide_enough(cells, idx.take(m as int), t(m)),
    ensures
        fit_count(cells, idx, t) == n,
    decreases idx.len(),
{
    if idx.len() == n {
        assert(idx.take(n as int) =~= idx);
    } else {
        assert(idx.take(idx.len() as int) =~= idx);
        assert(!wide_enough(cells, idx.take(idx.len() as int), t(idx.len())));
        let shorter = idx.drop_last();
        assert forall|m: nat| #![trigger t(m)] n < m <= shorter.len() implies !wide_enough(
            cells,
            shorter.take(m as int),
            t(m),
        ) by {
            assert(shorter.take(m as int) =~= idx.take(m as int));
        }
        assert(shorter.take(n as int) =~= idx.take(n as int));
        lemma_fit_stops(cells, shorter, t, n);
    }
}

fn check_wide(cells: &Vec<CellSpec>, idx: &Vec<usize>, slots: &Vec<Rect>) -> (r: bool)
    requires
        slots@.len() == idx@.len(),
        forall|k: int| #![trigger idx@[k]] 0 <= k < idx@.len() ==> idx@[k] < cells@.len(),
    ensures
        r == wide_enough(cells@, idx@, slots@),
{
    if idx.len() == 1 {
        return true;
    }
    let mut i: usize = 0;
    while i < idx.len()
        invariant
            i <= idx@.len(),
            slots@.len() == idx@.len(),
            idx@.len() != 1,
            forall|k: int| #![trigger idx@[k]] 0 <= k < idx@.len() ==> idx@[k] < cells@.len(),
            forall|k: int| #![trigger slots@[k]] 0 <= k < i ==> slots@[k].width >= cells@[idx@[k] as int].min.0,
        decreases idx@.len() - i,
    {
        if slots[i].width < cells[idx[i]].min.0 {
            return false;
        }
        i = i + 1;
    }
    true
}

/// Appends the cells of `band` placed across `rect` to `out`; gives back
/// what the splits of `rect` gave.
fn place_band(out: &mut Vec<Placed>, band: &Band, rect: Rect) -> (t: Ghost<spec_fn(nat) -> Seq<Rect>>)
    ensures
        band_trials_ok(*band, rect, t@),
        final(out)@ == old(out)@ + band_cells(*band, rect, t@),
        forall|k: int| #![trigger final(out)@[k]] old(out)@.len() <= k < final(out)@.len() ==> in_band(final(out)@[k].rect, rect),
        rect.x + rect.width <= u16::MAX ==> forall|k: int, l: int|
            #![trigger final(out)@[k], final(out)@[l]]
            old(out)@.len() <= k < l < final(out)@.len() ==> final(out)@[k].rect.x + final(out)@[k].rect.width
                <= final(out)@[l].rect.x,
{
    let ghost mut t: spec_fn(nat) -> Seq<Rect> = greedy_trials(rect);
    proof {
        lemma_greedy_trials(*band, rect);
    }
    let mut kept = present_indices(&band.cells);
    let ghost idx = kept@;
    if kept.len() == 0 || rect.height == 0 || rect.width == 0 {
        assert(old(out)@ + band_cells(*band, rect, t) =~= old(out)@);
        return Ghost(t);
    }
    let mut slots = split_fill(rect, &band.cells, &kept);
    proof {
        if kept@.len() >= 2 {
            let t0 = t;
            t = with_trial(t0, kept@.len(), slots@);
            assert forall|n: nat| #![trigger t(n)] 2 <= n <= idx.len() implies split_fits(
                false,
                fill_fits(band.cells@, idx.take(n as int)),
                rect,
                t(n),
            ) by {
                if n != kept@.len() {
                    assert(t(n) == t0(n));
                } else {
                    assert(idx.take(n as int) =~= idx);
                }
            }
        }
    }
    let mut wide = check_wide(&band.cells, &kept, &slots);
    while !wide
        invariant
            1 <= kept@.len() <= idx.len(),
            kept@ == idx.take(kept@.len() as int),
            forall|k: int| #![trigger idx[k]] 0 <= k < idx.len() ==> idx[k] < band.cells@.len(),
            band_trials_ok(*band, rect, t),
            idx == present_idx(band.cells@),
            slots@ == slots_for(rect, kept@.len(), t(kept@.len())),
            slots@.len() == kept@.len(),
            forall|k: int| #![trigger slots@[k]] 0 <= k < slots@.len() ==> in_band(slots@[k], rect),
            wide == wide_enough(band.cells@, kept@, slots@),
            forall|m: nat|
                #![trigger t(m)]
                kept@.len() < m <= idx.len() ==> !wide_enough(band.cells@, idx.take(m as int), t(m)),
        decreases kept@.len(),
    {
        if kept.len() <= 1 {
            assert(wide_enough(band.cells@, kept@, slots@));
            assert(false);
        }
        let ghost before = kept@.len();
        assert(!wide_enough(band.cells@, idx.take(before as int), t(before)));
        kept.pop();
        assert(kept@ =~= idx.take(kept@.len() as int));
        slots = split_fill(rect, &band.cells, &kept);
        proof {
            if kept@.len() >= 2 {
                let t0 = t;
                t = with_trial(t0, kept@.len(), slots@);
                assert forall|n: nat| #![trigger t(n)] 2 <= n <= idx.len() implies split_fits(
                    false,
                    fill_fits(band.cells@, idx.take(n as int)),
                    rect,
                    t(n),
                ) by {
                    if n != kept@.len() {
                        assert(t(n) == t0(n));
                    }
                }
            }
        }
        wide = check_wide(&band.cells, &kept, &slots);
    }
    proof {
        lemma_fit_stops(band.cells@, idx, t, kept@.len());
        if rect.x + rect.width <= u16::MAX && kept@.len() >= 2 {
            let n = kept@.len();
            assert(split_fits(false, fill_fits(band.cells@, idx.take(n as int)), rect, t(n)));
            lemma_slots_ordered(band.cells@, kept@, rect, slots@);
        }
    }
    let ghost base = old(out)@.len();
    let mut i: usize = 0;
    while i < kept.len()
        invariant
            i <= kept@.len(),
            slots@.len() == kept@.len(),
            kept@ == idx.take(fit_count(band.cells@, idx, t)),
            slots@ == slots_for(rect, kept@.len(), t(kept@.len())),
            forall|k: int| #![trigger kept@[k]] 0 <= k < kept@.len() ==> kept@[k] < band.cells@.len(),
            out@ == old(out)@ + placements(band.cells@, kept@, slots@, i as int),
            forall|k: int| #![trigger slots@[k]] 0 <= k < slots@.len() ==> in_band(slots@[k], rect),
            forall|k: int| #![trigger out@[k]] old(out)@.len() <= k < out@.len() ==> in_band(out@[k].rect, rect),
            base == old(out)@.len(),
            rect.x + rect.width <= u16::MAX ==> forall|a: int, b: int|
                #![trigger slots@[a], slots@[b]]
                0 <= a < b < slots@.len() ==> slots@[a].x + slots@[a].width <= slots@[b].x,
            rect.x + rect.width <= u16::MAX ==> forall|k: int, m: int|
                #![trigger out@[k], slots@[m]]
                base <= k < out@.len() && i <= m < slots@.len() ==> out@[k].rect.x + out@[k].rect.width
                    <= slots@[m].x,
            rect.x + rect.width <= u16::MAX ==> forall|k: int, l: int|
                #![trigger out@[k], out@[l]]
                base <= k < l < out@.len() ==> out@[k].rect.x + out@[k].rect.width <= out@[l].rect.x,
        decreases kept@.len() - i,
    {
        let c = &band.cells[kept[i]];
        let slot = slots[i];
        let ghost before = out@;
        match resolve_kind(c.kind, slot.height) {
            Some(kind) => {
                out.push(Placed { id: c.id, kind, rect: slot, hop: c.title.hop });
            },
            None => {},
        }
        proof {
            if rect.x + rect.width <= u16::MAX {
                assert forall|k: int, m: int|
                    #![trigger out@[k], slots@[m]]
                    base <= k < out@.len() && i + 1 <= m < slots@.len() implies out@[k].rect.x + out@[k].rect.width
                        <= slots@[m].x by {
                    if k < before.len() {
                        assert(out@[k] == before[k]);
                        assert(before[k].rect.x + before[k].rect.width <= slots@[m].x);
                    } else {
                        assert(out@[k].rect == slots@[i as int]);
                        assert(slots@[i as int].x + slots@[i as int].width <= slots@[m].x);
                    }
                }
                assert forall|k: int, l: int|
                    #![trigger out@[k], out@[l]]
                    base <= k < l < out@.len() implies out@[k].rect.x + out@[k].rect.width <= out@[l].rect.x by {
                    if l < before.len() {
                        assert(out@[k] == before[k]);
                        assert(out@[l] == before[l]);
                    } else {
                        assert(out@[k] == before[k]);
                        assert(out@[l].rect == slots@[i as int]);
                        assert(before[k].rect.x + before[k].rect.width <= slots@[i as int].x);
                    }
                }
            }
        }
        i = i + 1;
    }
    Ghost(t)
}


/// Indices, in order, of the bands among the first `n` with a present cell.
pub open spec fn live_upto(bands: Seq<Band>, n: int) -> Seq<usize>
    decreases n,
{
    if n <= 0 {
        Seq::empty()
    } else {
        let rest = live_upto(bands, n - 1);
        if present_idx(bands[n - 1].cells@).len() > 0 { rest.push((n - 1) as usize) } else { rest }
    }
}

/// Indices of the bands with a present cell.
pub open spec fn live_bands(bands: Seq<Band>) -> Seq<usize> {
    live_upto(bands, bands.len() as int)
}

/// Sum of the minimum heights of the bands `live`.
pub open spec fn min_sum(bands: Seq<Band>, live: Seq<usize>) -> int
    decreases live.len(),
{
    if live.len() == 0 {
        0
    } else {
        min_sum(bands, live.drop_last()) + bands[live.last() as int].min_height
    }
}

/// The bands kept in a pane `height` rows tall: while more than one is
/// left and their minimum heights do not fit, the last is dropped.
pub open spec fn trim_live(bands: Seq<Band>, live: Seq<usize>, height: u16) -> Seq<usize>
    decreases live.len(),
{
    if live.len() > 1 && min_sum(bands, live) > height {
        trim_live(bands, live.drop_last(), height)
    } else {
        live
    }
}

/// Sum of a run of heights.
pub open spec fn sum16(h: Seq<u16>) -> int
    decreases h.len(),
{
    if h.len() == 0 {
        0
    } else {
        sum16(h.drop_last()) + h.last()
    }
}

/// Each kept band starts at its minimum height, clipped to the pane.
pub open spec fn base_heights(bands: Seq<Band>, live: Seq<usize>, height: u16) -> Seq<u16> {
    Seq::new(
        live.len(),
        |k: int|
            if bands[live[k] as int].min_height < height {
                bands[live[k] as int].min_height
            } else {
                height
            },
    )
}

/// Spare rows handed, in band order, to bands that grow to a fixed height.
pub open spec fn grow_from(bands: Seq<Band>, live: Seq<usize>, h: Seq<u16>, left: u16, i: int) -> (
    Seq<u16>,
    u16,
)
    decreases live.len() - i,
{
    if i < 0 || i >= live.len() || left == 0 {
        (h, left)
    } else {
        match bands[live[i] as int].grow_to {
            None => grow_from(bands, live, h, left, i + 1),
            Some(cap) => {
                let room: u16 = if cap >= h[i] { (cap - h[i]) as u16 } else { 0 };
                let give: u16 = if room < left { room } else { left };
                grow_from(bands, live, h.update(i, (h[i] + give) as u16), (left - give) as u16, i + 1)
            },
        }
    }
}

/// Positions (among the kept bands) of the first `n` that take spare rows.
pub open spec fn takers_upto(bands: Seq<Band>, live: Seq<usize>, n: int) -> Seq<usize>
    decreases n,
{
    if n <= 0 {
        Seq::empty()
    } else {
        let rest = takers_upto(bands, live, n - 1);
        if bands[live[n - 1] as int].take_leftover { rest.push((n - 1) as usize) } else { rest }
    }
}

/// The tallest a band that takes spare rows may get.
pub open spec fn cap_of(band: Band) -> u16 {
    match band.max_height {
        Some(m) => m,
        None => u16::MAX,
    }
}

/// One round of sharing from taker `j` on: each taker under its cap gets a
/// row while rows are left; the flag says whether any row was handed out.
pub open spec fn round_from(
    bands: Seq<Band>,
    live: Seq<usize>,
    takers: Seq<usize>,
    h: Seq<u16>,
    left: u16,
    j: int,
) -> (Seq<u16>, u16, bool)
    decreases takers.len() - j,
{
    if j < 0 || j >= takers.len() || left == 0 {
        (h, left, false)
    } else {
        let i = takers[j] as int;
        if h[i] < cap_of(bands[live[i] as int]) {
            let r = round_from(bands, live, takers, h.update(i, (h[i] + 1) as u16), (left - 1) as u16, j + 1);
            (r.0, r.1, true)
        } else {
            round_from(bands, live, takers, h, left, j + 1)
        }
    }
}

/// Rounds of sharing until no rows are left or a round hands out none.
pub open spec fn share(bands: Seq<Band>, live: Seq<usize>, takers: Seq<usize>, h: Seq<u16>, left: u16) -> (
    Seq<u16>,
    u16,
)
    decreases left,
{
    if left == 0 || takers.len() == 0 {
        (h, left)
    } else {
        let r = round_from(bands, live, takers, h, left, 0);
        if r.2 {
            proof {
                lemma_round_spends(bands, live, takers, h, left, 0);
            }
            share(bands, live, takers, r.0, r.1)
        } else {
            (r.0, r.1)
        }
    }
}

/// A round that hands out a row has fewer rows left afterwards.
pub proof fn lemma_round_spends(
    bands: Seq<Band>,
    live: Seq<usize>,
    takers: Seq<usize>,
    h: Seq<u16>,
    left: u16,
    j: int,
)
    ensures
        round_from(bands, live, takers, h, left, j).1 <= left,
        round_from(bands, live, takers, h, left, j).2 ==> round_from(bands, live, takers, h, left, j).1
            < left,
    decreases takers.len() - j,
{
    if j < 0 || j >= takers.len() || left == 0 {
    } else {
        let i = takers[j] as int;
        if h[i] < cap_of(bands[live[i] as int]) {
            lemma_round_spends(bands, live, takers, h.update(i, (h[i] + 1) as u16), (left - 1) as u16, j + 1);
        } else {
            lemma_round_spends(bands, live, takers, h, left, j + 1);
        }
    }
}

/// Rows still left go to the last taker, or to the first band.
pub open spec fn finish(h: Seq<u16>, left: u16, takers: Seq<usize>) -> Seq<u16> {
    if left == 0 {
        h
    } else {
        let t: int = if takers.len() > 0 { takers.last() as int } else { 0 };
        if t < h.len() { h.update(t, sat_add16(h[t], left)) } else { h }
    }
}

/// The bands that are laid out in `area`.
pub open spec fn kept_bands(area: Rect, bands: Seq<Band>) -> Seq<usize> {
    trim_live(bands, live_bands(bands), area.height)
}

/// The height of each band that is laid out in `area`.
pub open spec fn band_heights(area: Rect, bands: Seq<Band>) -> Seq<u16> {
    let live = kept_bands(area, bands);
    let h0 = base_heights(bands, live, area.height);
    let used = sum16(h0);
    let left0: u16 = if used >= area.height { 0 } else { (area.height - used) as u16 };
    let g = grow_from(bands, live, h0, left0, 0);
    let takers = takers_upto(bands, live, live.len() as int);
    let s = share(bands, live, takers, g.0, g.1);
    finish(s.0, s.1, takers)
}

/// The top row of the `k`-th band stacked from `area`'s top with heights
/// `h`.
pub open spec fn band_top(area: Rect, h: Seq<u16>, k: int) -> u16
    decreases k,
{
    if k <= 0 {
        area.y
    } else {
        sat_add16(band_top(area, h, k - 1), h[k - 1])
    }
}

/// The rows of the `k`-th band: the pane's columns, `h[k]` rows from its
/// top.
pub open spec fn band_rect(area: Rect, h: Seq<u16>, k: int) -> Rect {
    Rect { x: area.x, y: band_top(area, h, k), width: area.width, height: h[k] }
}

/// The placed cells of the first `n` bands `live` of `bands`, stacked with
/// heights `h`, the `k`-th band's splits having given `tr[k]`.
pub open spec fn stack_upto(
    area: Rect,
    bands: Seq<Band>,
    live: Seq<usize>,
    h: Seq<u16>,
    n: int,
    tr: Seq<spec_fn(nat) -> Seq<Rect>>,
) -> Seq<Placed>
    decreases n,
{
    if n <= 0 {
        Seq::empty()
    } else {
        stack_upto(area, bands, live, h, n - 1, tr) + band_cells(
            bands[live[n - 1] as int],
            band_rect(area, h, n - 1),
            tr[n - 1],
        )
    }
}

/// The cells of `bands` packed into `area`, the splits of the `k`-th band
/// kept having given `tr[k]`.
pub open spec fn pack_spec(area: Rect, bands: Seq<Band>, tr: Seq<spec_fn(nat) -> Seq<Rect>>) -> Seq<Placed> {
    if area.width == 0 || area.height == 0 {
        Seq::empty()
    } else {
        let live = kept_bands(area, bands);
        stack_upto(area, bands, live, band_heights(area, bands), live.len() as int, tr)
    }
}

/// `tr` holds, for each band kept in `area`, what the splits of that band's
/// rows gave.
pub open spec fn pack_trials_ok(area: Rect, bands: Seq<Band>, tr: Seq<spec_fn(nat) -> Seq<Rect>>) -> bool {
    area.width == 0 || area.height == 0 || {
        &&& tr.len() == kept_bands(area, bands).len()
        &&& forall|k: int|
            #![trigger tr[k]]
            0 <= k < tr.len() ==> band_trials_ok(bands[kept_bands(area, bands)[k] as int], band_rect(area, band_heights(area, bands), k), tr[k])
    }
}

/// For every split of every band kept in `area`, the first slot taking it
/// all.
pub open spec fn greedy_pack_trials(area: Rect, bands: Seq<Band>) -> Seq<spec_fn(nat) -> Seq<Rect>> {
    Seq::new(
        kept_bands(area, bands).len(),
        |k: int| greedy_trials(band_rect(area, band_heights(area, bands), k)),
    )
}

pub(crate) proof fn lemma_greedy_pack_trials(area: Rect, bands: Seq<Band>)
    ensures
        pack_trials_ok(area, bands, greedy_pack_trials(area, bands)),
{
    let tr = greedy_pack_trials(area, bands);
    assert forall|k: int| #![trigger tr[k]] 0 <= k < tr.len() implies band_trials_ok(
        bands[kept_bands(area, bands)[k] as int],
        band_rect(area, band_heights(area, bands), k),
        tr[k],
    ) by {
        lemma_greedy_trials(bands[kept_bands(area, bands)[k] as int], band_rect(area, band_heights(area, bands), k));
    }
}

proof fn lemma_stack_upto_push(
    area: Rect,
    bands: Seq<Band>,
    live: Seq<usize>,
    h: Seq<u16>,
    n: int,
    tr: Seq<spec_fn(nat) -> Seq<Rect>>,
    t: spec_fn(nat) -> Seq<Rect>,
)
    requires
        n <= tr.len(),
    ensures
        stack_upto(area, bands, live, h, n, tr.push(t)) == stack_upto(area, bands, live, h, n, tr),
    decreases n,
{
    if n > 0 {
        lemma_stack_upto_push(area, bands, live, h, n - 1, tr, t);
        assert(tr.push(t)[n - 1] == tr[n - 1]);
    }
}

/// The minimum heights of the bands with a present cell add up to a `u16`.
pub open spec fn bands_fit_u16(bands: Seq<Band>) -> bool {
    min_sum(bands, live_bands(bands)) <= u16::MAX
}

proof fn lemma_live_upto(bands: Seq<Band>, n: int)
    requires
        0 <= n <= bands.len(),
        bands.len() <= usize::MAX,
    ensures
        live_upto(bands, n).len() <= n,
        forall|k: int|
            #![trigger live_upto(bands, n)[k]]
            0 <= k < live_upto(bands, n).len() ==> live_upto(bands, n)[k] < n,
    decreases n,
{
    if n > 0 {
        lemma_live_upto(bands, n - 1);
        let rest = live_upto(bands, n - 1);
        assert forall|k: int| 0 <= k < live_upto(bands, n).len() implies live_upto(bands, n)[k] < n by {
            if k < rest.len() {
                assert(live_upto(bands, n)[k] == rest[k]);
            }
        }
    }
}

proof fn lemma_takers_upto(bands: Seq<Band>, live: Seq<usize>, n: int)
    requires
        0 <= n <= live.len(),
        live.len() <= usize::MAX,
    ensures
        takers_upto(bands, live, n).len() <= n,
        forall|k: int|
            #![trigger takers_upto(bands, live, n)[k]]
            0 <= k < takers_upto(bands, live, n).len() ==> takers_upto(bands, live, n)[k] < n,
    decreases n,
{
    if n > 0 {
        lemma_takers_upto(bands, live, n - 1);
        let rest = takers_upto(bands, live, n - 1);
        assert forall|k: int| 0 <= k < takers_upto(bands, live, n).len() implies takers_upto(
            bands,
            live,
            n,
        )[k] < n by {
            if k < rest.len() {
                assert(takers_upto(bands, live, n)[k] == rest[k]);
            }
        }
    }
}

/// A prefix of the bands never needs more rows than all of them.
proof fn lemma_min_sum_prefix(bands: Seq<Band>, live: Seq<usize>, i: int)
    requires
        0 <= i <= live.len(),
    ensures
        0 <= min_sum(bands, live.take(i)) <= min_sum(bands, live),
    decreases live.len(),
{
    if i == live.len() {
        assert(live.take(i) =~= live);
        lemma_min_sum_nonneg(bands, live);
    } else {
        assert(live.take(i) =~= live.drop_last().take(i));
        lemma_min_sum_prefix(bands, live.drop_last(), i);
    }
}

proof fn lemma_min_sum_nonneg(bands: Seq<Band>, live: Seq<usize>)
    ensures
        min_sum(bands, live) >= 0,
    decreases live.len(),
{
    if live.len() > 0 {
        lemma_min_sum_nonneg(bands, live.drop_last());
    }
}

/// Trimming only drops bands from the end, and never adds to the rows
/// needed.
proof fn lemma_trim(bands: Seq<Band>, live: Seq<usize>, height: u16)
    ensures
        trim_live(bands, live, height).len() <= live.len(),
        trim_live(bands, live, height) == live.take(trim_live(bands, live, height).len() as int),
        min_sum(bands, trim_live(bands, live, height)) <= min_sum(bands, live),
        trim_live(bands, live, height).len() > 1 ==> min_sum(bands, trim_live(bands, live, height))
            <= height,
        live.len() > 0 ==> trim_live(bands, live, height).len() > 0,
    decreases live.len(),
{
    lemma_min_sum_nonneg(bands, live);
    if live.len() > 1 && min_sum(bands, live) > height {
        lemma_trim(bands, live.drop_last(), height);
        let t = trim_live(bands, live.drop_last(), height);
        assert(t =~= live.take(t.len() as int));
        lemma_min_sum_prefix(bands, live, live.len() - 1);
        assert(live.take(live.len() - 1) =~= live.drop_last());
    } else {
        assert(live =~= live.take(live.len() as int));
    }
}

fn min_sum_exec(bands: &[Band], live: &Vec<usize>) -> (s: u16)
    requires
        min_sum(bands@, live@) <= u16::MAX,
        forall|k: int| #![trigger live@[k]] 0 <= k < live@.len() ==> live@[k] < bands@.len(),
    ensures
        s == min_sum(bands@, live@),
{
    let mut acc: u16 = 0;
    let mut i: usize = 0;
    while i < live.len()
        invariant
            i <= live@.len(),
            min_sum(bands@, live@) <= u16::MAX,
            forall|k: int| #![trigger live@[k]] 0 <= k < live@.len() ==> live@[k] < bands@.len(),
            acc == min_sum(bands@, live@.take(i as int)),
        decreases live@.len() - i,
    {
        proof {
            lemma_min_sum_prefix(bands@, live@, i + 1);
            assert(live@.take(i + 1).drop_last() =~= live@.take(i as int));
        }
        acc = acc + bands[live[i]].min_height;
        i = i + 1;
    }
    assert(live@.take(i as int) =~= live@);
    acc
}

/// Whether the minimum heights of the bands with a present cell add up to
/// a `u16`, as `pack` needs.
pub fn bands_fit(bands: &[Band]) -> (r: bool)
    ensures
        r == bands_fit_u16(bands@),
{
    let mut live: Vec<usize> = Vec::new();
    let mut b: usize = 0;
    while b < bands.len()
        invariant
            b <= bands@.len(),
            live@ == live_upto(bands@, b as int),
        decreases bands@.len() - b,
    {
        let idx = present_indices(&bands[b].cells);
        if idx.len() > 0 {
            live.push(b);
        }
        b = b + 1;
    }
    proof {
        lemma_live_upto(bands@, bands@.len() as int);
    }
    let mut acc: u32 = 0;
    let mut i: usize = 0;
    while i < live.len()
        invariant
            i <= live@.len(),
            live@ == live_bands(bands@),
            forall|k: int| #![trigger live@[k]] 0 <= k < live@.len() ==> live@[k] < bands@.len(),
            acc == min_sum(bands@, live@.take(i as int)),
            acc <= u16::MAX,
        decreases live@.len() - i,
    {
        proof {
            assert(live@.take(i + 1).drop_last() =~= live@.take(i as int));
        }
        let next = acc + bands[live[i]].min_height as u32;
        if next > 65535 {
            proof {
                lemma_min_sum_prefix(bands@, live@, i + 1);
            }
            return false;
        }
        acc = next;
        i = i + 1;
    }
    assert(live@.take(i as int) =~= live@);
    true
}

/// Packs the cells of `bands` into `area`: bands with no present cell are
/// skipped; while the remaining minimum heights do not fit, the last band
/// is dropped; each band starts at its minimum height, then grows toward
/// `grow_to`, then the takers of spare rows share what is left row by row
/// up to their caps, and any rest goes to the last taker (or the first
/// band). Within a band, cells are dropped from the right until each is
/// wide enough, and each is drawn as the kind its height allows.
pub fn pack(area: Rect, bands: &[Band]) -> (p: Pack)
    requires
        bands_fit_u16(bands@),
    ensures
        exists|tr: Seq<spec_fn(nat) -> Seq<Rect>>|
            pack_trials_ok(area, bands@, tr) && p.cells@ == #[trigger] pack_spec(area, bands@, tr),
        area.width == 0 || area.height == 0 ==> p.cells@.len() == 0,
        forall|i: int| #![trigger p.cells@[i]] 0 <= i < p.cells@.len() ==> within(p.cells@[i].rect, area),
        area.y + area.height <= u16::MAX ==> forall|i: int, j: int|
            #![trigger p.cells@[i], p.cells@[j]]
            0 <= i < j < p.cells@.len() ==> same_rows_or_above(p.cells@[i].rect, p.cells@[j].rect),
        area.x + area.width <= u16::MAX && area.y + area.height <= u16::MAX ==> forall|i: int, j: int|
            #![trigger p.cells@[i], p.cells@[j]]
            0 <= i < j < p.cells@.len() ==> apart(p.cells@[i].rect, p.cells@[j].rect),
{
    if area.width == 0 || area.height == 0 {
        let ghost tr: Seq<spec_fn(nat) -> Seq<Rect>> = Seq::empty();
        assert(pack_trials_ok(area, bands@, tr));
        let cells: Vec<Placed> = Vec::new();
        assert(cells@ =~= pack_spec(area, bands@, tr));
        return Pack { cells };
    }
    let mut live: Vec<usize> = Vec::new();
    let mut b: usize = 0;
    while b < bands.len()
        invariant
            b <= bands@.len(),
            live@ == live_upto(bands@, b as int),
        decreases bands@.len() - b,
    {
        let idx = present_indices(&bands[b].cells);
        if idx.len() > 0 {
            live.push(b);
        }
        b = b + 1;
    }
    proof {
        lemma_live_upto(bands@, bands@.len() as int);
        lemma_trim(bands@, live@, area.height);
    }
    let ghost all_live = live@;
    let mut settled = false;
    while !settled && live.len() > 1
        invariant
            trim_live(bands@, live@, area.height) == kept_bands(area, bands@),
            min_sum(bands@, live@) <= u16::MAX,
            live@.len() <= all_live.len(),
            live@ == all_live.take(live@.len() as int),
            all_live == live_bands(bands@),
            forall|k: int| #![trigger all_live[k]] 0 <= k < all_live.len() ==> all_live[k] < bands@.len(),
            settled ==> trim_live(bands@, live@, area.height) == live@,
        decreases live@.len(), if settled { 0int } else { 1int },
    {
        let sum = min_sum_exec(bands, &live);
        if sum <= area.height {
            settled = true;
        } else {
            proof {
                lemma_min_sum_prefix(bands@, live@, live@.len() - 1);
                assert(live@.take(live@.len() - 1) =~= live@.drop_last());
            }
            live.pop();
            assert(live@ =~= all_live.take(live@.len() as int));
        }
    }
    assert(trim_live(bands@, live@, area.height) == live@);
    let ghost kept = live@;
    assert(forall|k: int| #![trigger kept[k]] 0 <= k < kept.len() ==> kept[k] < bands@.len()) by {
        assert forall|k: int| 0 <= k < kept.len() implies #[trigger] kept[k] < bands@.len() by {
            assert(kept[k] == all_live[k]);
        }
    }
    proof {
        lemma_min_sum_nonneg(bands@, kept);
    }
    let mut heights: Vec<u16> = Vec::new();
    let mut used: u16 = 0;
    let mut k: usize = 0;
    while k < live.len()
        invariant
            k <= live@.len(),
            live@ == kept,
            min_sum(bands@, kept) <= u16::MAX,
            forall|j: int| #![trigger kept[j]] 0 <= j < kept.len() ==> kept[j] < bands@.len(),
            heights@ =~= base_heights(bands@, kept, area.height).take(k as int),
            used == sum16(heights@),
            sum16(heights@) <= min_sum(bands@, kept.take(k as int)),
        decreases live@.len() - k,
    {
        let m = bands[live[k]].min_height;
        let v = if m < area.height { m } else { area.height };
        proof {
            lemma_min_sum_prefix(bands@, kept, k + 1);
            assert(kept.take(k + 1).drop_last() =~= kept.take(k as int));
            assert(heights@.push(v).drop_last() =~= heights@);
        }
        heights.push(v);
        used = used + v;
        k = k + 1;
    }
    let ghost h0 = heights@;
    assert(h0 =~= base_heights(bands@, kept, area.height));
    let mut leftover: u16 = area.height.saturating_sub(used);
    let ghost left0 = leftover;
    let ghost g = grow_from(bands@, kept, h0, left0, 0);
    let mut i: usize = 0;
    while i < live.len()
        invariant
            i <= live@.len(),
            live@ == kept,
            heights@.len() == kept.len(),
            forall|j: int| #![trigger kept[j]] 0 <= j < kept.len() ==> kept[j] < bands@.len(),
            grow_from(bands@, kept, heights@, leftover, i as int) == g,
        decreases live@.len() - i,
    {
        if leftover > 0 {
            match bands[live[i]].grow_to {
                Some(cap) => {
                    let room = cap.saturating_sub(heights[i]);
                    let give = if room < leftover { room } else { leftover };
                    let v = heights[i].saturating_add(give);
                    heights.set(i, v);
                    leftover = leftover - give;
                },
                None => {},
            }
        }
        i = i + 1;
    }
    let mut takers: Vec<usize> = Vec::new();
    let mut t: usize = 0;
    while t < live.len()
        invariant
            t <= live@.len(),
            live@ == kept,
            forall|j: int| #![trigger kept[j]] 0 <= j < kept.len() ==> kept[j] < bands@.len(),
            takers@ == takers_upto(bands@, kept, t as int),
        decreases live@.len() - t,
    {
        if bands[live[t]].take_leftover {
            takers.push(t);
        }
        t = t + 1;
    }
    proof {
        lemma_takers_upto(bands@, kept, kept.len() as int);
    }
    let ghost target = share(bands@, kept, takers@, heights@, leftover);
    let mut progressed = takers.len() > 0;
    while leftover > 0 && progressed
        invariant
            live@ == kept,
            heights@.len() == kept.len(),
            forall|j: int| #![trigger kept[j]] 0 <= j < kept.len() ==> kept[j] < bands@.len(),
            forall|j: int| #![trigger takers@[j]] 0 <= j < takers@.len() ==> takers@[j] < kept.len(),
            progressed ==> takers@.len() > 0,
            progressed ==> share(bands@, kept, takers@, heights@, leftover) == target,
            !progressed ==> (heights@, leftover) == target,
        decreases leftover, if progressed { 1int } else { 0int },
    {
        let ghost h_start = heights@;
        let ghost l_start = leftover;
        let ghost r = round_from(bands@, kept, takers@, h_start, l_start, 0);
        progressed = false;
        let mut j: usize = 0;
        while j < takers.len()
            invariant
                j <= takers@.len(),
                live@ == kept,
                heights@.len() == kept.len(),
                forall|q: int| #![trigger kept[q]] 0 <= q < kept.len() ==> kept[q] < bands@.len(),
                forall|q: int| #![trigger takers@[q]] 0 <= q < takers@.len() ==> takers@[q] < kept.len(),
                round_from(bands@, kept, takers@, heights@, leftover, j as int).0 == r.0,
                round_from(bands@, kept, takers@, heights@, leftover, j as int).1 == r.1,
                (round_from(bands@, kept, takers@, heights@, leftover, j as int).2 || progressed) == r.2,
                leftover <= l_start,
                progressed ==> leftover < l_start,
            decreases takers@.len() - j,
        {
            if leftover > 0 {
                let ti = takers[j];
                let cap = match bands[live[ti]].max_height {
                    Some(m) => m,
                    None => u16::MAX,
                };
                if heights[ti] < cap {
                    let v = heights[ti] + 1;
                    heights.set(ti, v);
                    leftover = leftover - 1;
                    progressed = true;
                }
            }
            j = j + 1;
        }
    }
    if leftover > 0 {
        let target_band = if takers.len() > 0 { takers[takers.len() - 1] } else { 0 };
        if target_band < heights.len() {
            let v = heights[target_band].saturating_add(leftover);
            heights.set(target_band, v);
        }
    }
    assert(heights@ == band_heights(area, bands@));
    proof {
        if live@.len() > 0 {
            lemma_trim(bands@, all_live, area.height);
            law_bands_fill_the_pane(area, bands@);
        }
        assert(heights@.take(0) =~= Seq::<u16>::empty());
    }
    let mut y = area.y;
    let mut cells: Vec<Placed> = Vec::new();
    let ghost mut tr: Seq<spec_fn(nat) -> Seq<Rect>> = Seq::empty();
    let mut k: usize = 0;
    while k < live.len()
        invariant
            k <= live@.len(),
            live@ == kept,
            heights@.len() == kept.len(),
            forall|j: int| #![trigger kept[j]] 0 <= j < kept.len() ==> kept[j] < bands@.len(),
            live@.len() > 0 ==> sum16(heights@) == area.height,
            area.y <= y,
            y <= area.y + sum16(heights@.take(k as int)),
            y == band_top(area, heights@, k as int),
            tr.len() == k,
            forall|j: int|
                #![trigger tr[j]]
                0 <= j < k ==> band_trials_ok(bands@[kept[j] as int], band_rect(area, heights@, j), tr[j]),
            cells@ == stack_upto(area, bands@, kept, heights@, k as int, tr),
            forall|i: int| #![trigger cells@[i]] 0 <= i < cells@.len() ==> within(cells@[i].rect, area),
            area.y + area.height <= u16::MAX ==> forall|i: int| #![trigger cells@[i]] 0 <= i < cells@.len()
                ==> cells@[i].rect.y + cells@[i].rect.height <= y,
            area.y + area.height <= u16::MAX ==> forall|i: int, j: int|
                #![trigger cells@[i], cells@[j]]
                0 <= i < j < cells@.len() ==> same_rows_or_above(cells@[i].rect, cells@[j].rect),
            area.x + area.width <= u16::MAX && area.y + area.height <= u16::MAX ==> forall|i: int, j: int|
                #![trigger cells@[i], cells@[j]]
                0 <= i < j < cells@.len() ==> apart(cells@[i].rect, cells@[j].rect),
        decreases live@.len() - k,
    {
        let rect = Rect { x: area.x, y, width: area.width, height: heights[k] };
        proof {
            lemma_sum16_prefix(heights@, k + 1);
            assert(heights@.take(k + 1).drop_last() =~= heights@.take(k as int));
        }
        let ghost before = cells@;
        let t = place_band(&mut cells, &bands[live[k]], rect);
        proof {
            assert forall|i: int| #![trigger cells@[i]] 0 <= i < cells@.len() implies within(cells@[i].rect, area) by {
                if i < before.len() {
                    assert(cells@[i] == before[i]);
                } else {
                    assert(in_band(cells@[i].rect, rect));
                }
            }
            if area.y + area.height <= u16::MAX {
                assert forall|i: int, j: int|
                    #![trigger cells@[i], cells@[j]]
                    0 <= i < j < cells@.len() implies same_rows_or_above(cells@[i].rect, cells@[j].rect) by {
                    if j < before.len() {
                        assert(cells@[i] == before[i]);
                        assert(cells@[j] == before[j]);
                    } else if i < before.len() {
                        assert(cells@[i] == before[i]);
                        assert(in_band(cells@[j].rect, rect));
                    } else {
                        assert(in_band(cells@[i].rect, rect));
                        assert(in_band(cells@[j].rect, rect));
                    }
                }
                if area.x + area.width <= u16::MAX {
                    assert forall|i: int, j: int|
                        #![trigger cells@[i], cells@[j]]
                        0 <= i < j < cells@.len() implies apart(cells@[i].rect, cells@[j].rect) by {
                        if j < before.len() {
                            assert(cells@[i] == before[i]);
                            assert(cells@[j] == before[j]);
                        } else if i < before.len() {
                            assert(cells@[i] == before[i]);
                            assert(in_band(cells@[j].rect, rect));
                        } else {
                            assert(cells@[i].rect.x + cells@[i].rect.width <= cells@[j].rect.x);
                        }
                    }
                }
                assert forall|i: int| #![trigger cells@[i]] 0 <= i < cells@.len() implies cells@[i].rect.y
                    + cells@[i].rect.height <= y + heights@[k as int] by {
                    if i < before.len() {
                        assert(cells@[i] == before[i]);
                    } else {
                        assert(in_band(cells@[i].rect, rect));
                    }
                }
            }
            lemma_stack_upto_push(area, bands@, kept, heights@, k as int, tr, t@);
            assert(rect == band_rect(area, heights@, k as int));
            tr = tr.push(t@);
            assert(tr[k as int] == t@);
            assert forall|j: int| #![trigger tr[j]] 0 <= j < k + 1 implies band_trials_ok(
                bands@[kept[j] as int],
                band_rect(area, heights@, j),
                tr[j],
            ) by {
                if j < k {
                    assert(tr[j] == tr.drop_last()[j]);
                }
            }
        }
        y = y.saturating_add(heights[k]);
        k = k + 1;
    }
    assert(pack_trials_ok(area, bands@, tr));
    assert(cells@ == pack_spec(area, bands@, tr));
    Pack { cells }
}

/// The first of `cells` from position `i` on with the given id.
pub open spec fn find_id(cells: Seq<Placed>, id: u8, i: int) -> Option<Placed>
    decreases cells.len() - i,
{
    if i < 0 || i >= cells.len() {
        None
    } else if cells[i].id == id {
        Some(cells[i])
    } else {
        find_id(cells, id, i + 1)
    }
}

/// The jump target of the first of `cells` from position `i` on that
/// contains the cell (`col`, `row`) and has one.
pub open spec fn find_hop(cells: Seq<Placed>, col: u16, row: u16, i: int) -> Option<Panel>
    decreases cells.len() - i,
{
    if i < 0 || i >= cells.len() {
        None
    } else if rect_contains(cells[i].rect, col, row) && cells[i].hop is Some {
        cells[i].hop
    } else {
        find_hop(cells, col, row, i + 1)
    }
}

impl Pack {
    /// The placed cell with the given id, if it found room.
    pub fn get(&self, id: u8) -> (r: Option<Placed>)
        ensures
            r == find_id(self.cells@, id, 0),
    {
        let mut i: usize = 0;
        while i < self.cells.len()
            invariant
                i <= self.cells@.len(),
                find_id(self.cells@, id, i as int) == find_id(self.cells@, id, 0),
            decreases self.cells@.len() - i,
        {
            if self.cells[i].id == id {
                return Some(self.cells[i]);
            }
            i = i + 1;
        }
        None
    }

    /// The box that a click on (`col`, `row`) jumps to, if it lands on a
    /// cell that has one.
    pub fn hop_at(&self, col: u16, row: u16) -> (r: Option<Panel>)
        ensures
            r == find_hop(self.cells@, col, row, 0),
    {
        let mut i: usize = 0;
        while i < self.cells.len()
            invariant
                i <= self.cells@.len(),
                find_hop(self.cells@, col, row, i as int) == find_hop(self.cells@, col, row, 0),
            decreases self.cells@.len() - i,
        {
            let c = self.cells[i];
            if crate::ui::layout::contains(c.rect, col, row) && c.hop.is_some() {
                return c.hop;
            }
            i = i + 1;
        }
        None
    }
}

proof fn lemma_sum16_nonneg(h: Seq<u16>)
    ensures
        sum16(h) >= 0,
    decreases h.len(),
{
    if h.len() > 0 {
        lemma_sum16_nonneg(h.drop_last());
    }
}

/// A prefix of the heights never sums past all of them.
proof fn lemma_sum16_prefix(h: Seq<u16>, k: int)
    requires
        0 <= k <= h.len(),
    ensures
        sum16(h.take(k)) <= sum16(h),
    decreases h.len(),
{
    if k == h.len() {
        assert(h.take(k) =~= h);
    } else {
        assert(h.take(k) =~= h.drop_last().take(k));
        lemma_sum16_prefix(h.drop_last(), k);
    }
}

/// No single height exceeds the sum.
proof fn lemma_sum16_elem(h: Seq<u16>, i: int)
    requires
        0 <= i < h.len(),
    ensures
        h[i] <= sum16(h),
    decreases h.len(),
{
    lemma_sum16_nonneg(h.drop_last());
    if i < h.len() - 1 {
        lemma_sum16_elem(h.drop_last(), i);
    }
}

/// Replacing one height changes the sum by the difference.
proof fn lemma_sum16_update(h: Seq<u16>, i: int, v: u16)
    requires
        0 <= i < h.len(),
    ensures
        sum16(h.update(i, v)) == sum16(h) - h[i] + v,
    decreases h.len(),
{
    if i == h.len() - 1 {
        assert(h.update(i, v).drop_last() =~= h.drop_last());
    } else {
        assert(h.update(i, v).drop_last() =~= h.drop_last().update(i, v));
        lemma_sum16_update(h.drop_last(), i, v);
    }
}

/// The starting heights never need more rows than the bands' minimums, nor
/// more than the pane per band.
proof fn lemma_base_sum(bands: Seq<Band>, live: Seq<usize>, height: u16)
    ensures
        sum16(base_heights(bands, live, height)) <= min_sum(bands, live),
        live.len() == 1 ==> sum16(base_heights(bands, live, height)) <= height,
    decreases live.len(),
{
    let h = base_heights(bands, live, height);
    if live.len() > 0 {
        assert(h.drop_last() =~= base_heights(bands, live.drop_last(), height));
        lemma_base_sum(bands, live.drop_last(), height);
    }
}

/// Growing toward `grow_to` moves rows from the spare count into heights.
proof fn lemma_grow_conserves(bands: Seq<Band>, live: Seq<usize>, h: Seq<u16>, left: u16, i: int)
    requires
        h.len() == live.len(),
        0 <= i,
    ensures
        grow_from(bands, live, h, left, i).0.len() == h.len(),
        sum16(grow_from(bands, live, h, left, i).0) + grow_from(bands, live, h, left, i).1 == sum16(h)
            + left,
    decreases live.len() - i,
{
    if i >= live.len() || left == 0 {
    } else {
        match bands[live[i] as int].grow_to {
            None => lemma_grow_conserves(bands, live, h, left, i + 1),
            Some(cap) => {
                let room: u16 = if cap >= h[i] { (cap - h[i]) as u16 } else { 0 };
                let give: u16 = if room < left { room } else { left };
                lemma_sum16_update(h, i, (h[i] + give) as u16);
                lemma_grow_conserves(bands, live, h.update(i, (h[i] + give) as u16), (left - give) as u16, i + 1);
            },
        }
    }
}

proof fn lemma_round_conserves(
    bands: Seq<Band>,
    live: Seq<usize>,
    takers: Seq<usize>,
    h: Seq<u16>,
    left: u16,
    j: int,
)
    requires
        h.len() == live.len(),
        forall|k: int| #![trigger takers[k]] 0 <= k < takers.len() ==> takers[k] < live.len(),
        0 <= j,
    ensures
        round_from(bands, live, takers, h, left, j).0.len() == h.len(),
        sum16(round_from(bands, live, takers, h, left, j).0) + round_from(bands, live, takers, h, left, j).1
            == sum16(h) + left,
    decreases takers.len() - j,
{
    if j >= takers.len() || left == 0 {
    } else {
        let i = takers[j] as int;
        if h[i] < cap_of(bands[live[i] as int]) {
            lemma_sum16_update(h, i, (h[i] + 1) as u16);
            lemma_round_conserves(bands, live, takers, h.update(i, (h[i] + 1) as u16), (left - 1) as u16, j + 1);
        } else {
            lemma_round_conserves(bands, live, takers, h, left, j + 1);
        }
    }
}

proof fn lemma_share_conserves(bands: Seq<Band>, live: Seq<usize>, takers: Seq<usize>, h: Seq<u16>, left: u16)
    requires
        h.len() == live.len(),
        forall|k: int| #![trigger takers[k]] 0 <= k < takers.len() ==> takers[k] < live.len(),
    ensures
        share(bands, live, takers, h, left).0.len() == h.len(),
        sum16(share(bands, live, takers, h, left).0) + share(bands, live, takers, h, left).1 == sum16(h)
            + left,
    decreases left,
{
    if left == 0 || takers.len() == 0 {
    } else {
        let r = round_from(bands, live, takers, h, left, 0);
        lemma_round_conserves(bands, live, takers, h, left, 0);
        lemma_round_spends(bands, live, takers, h, left, 0);
        if r.2 {
            lemma_share_conserves(bands, live, takers, r.0, r.1);
        }
    }
}

/// Whenever some band has a cell to show, the bands laid out in a pane
/// fill it exactly: their heights add up to the pane's height, with no row
/// left over and none overdrawn.
pub proof fn law_bands_fill_the_pane(area: Rect, bands: Seq<Band>)
    requires
        bands.len() <= usize::MAX,
        live_bands(bands).len() > 0,
    ensures
        band_heights(area, bands).len() == kept_bands(area, bands).len(),
        sum16(band_heights(area, bands)) == area.height,
{
    let live = kept_bands(area, bands);
    lemma_trim(bands, live_bands(bands), area.height);
    lemma_live_upto(bands, bands.len() as int);
    let h0 = base_heights(bands, live, area.height);
    lemma_base_sum(bands, live, area.height);
    lemma_sum16_nonneg(h0);
    let used = sum16(h0);
    assert(used <= area.height);
    let left0: u16 = (area.height - used) as u16;
    lemma_grow_conserves(bands, live, h0, left0, 0);
    let g = grow_from(bands, live, h0, left0, 0);
    let takers = takers_upto(bands, live, live.len() as int);
    lemma_takers_upto(bands, live, live.len() as int);
    lemma_share_conserves(bands, live, takers, g.0, g.1);
    let sh = share(bands, live, takers, g.0, g.1);
    if sh.1 > 0 {
        let t: int = if takers.len() > 0 { takers.last() as int } else { 0 };
        lemma_sum16_elem(sh.0, t);
        lemma_sum16_update(sh.0, t, sat_add16(sh.0[t], sh.1));
    }
}

/// A placed cell is tall enough for what it is drawn as.
pub open spec fn tall_enough(p: Placed) -> bool {
    &&& p.rect.height >= 3
    &&& (p.kind == CellKind::Graph || p.kind == CellKind::Cluster) ==> p.rect.height >= 4
}

/// A placed cell stands for a present cell of some band: same id, same
/// jump target, and drawn as the kind its height allows for that cell.
pub open spec fn placed_from(bands: Seq<Band>, p: Placed) -> bool {
    exists|b: int, c: int|
        0 <= b < bands.len() && 0 <= c < bands[b].cells@.len() && #[trigger] bands[b].cells@[c].present
            && bands[b].cells@[c].id == p.id && bands[b].cells@[c].title.hop == p.hop
            && resolve_kind_spec(bands[b].cells@[c].kind, p.rect.height) == Some(p.kind)
}

proof fn lemma_placements(bands: Seq<Band>, b: int, kept: Seq<usize>, slots: Seq<Rect>, n: int)
    requires
        0 <= b < bands.len(),
        0 <= n <= kept.len(),
        forall|k: int|
            #![trigger kept[k]]
            0 <= k < kept.len() ==> kept[k] < bands[b].cells@.len() && bands[b].cells@[kept[k] as int].present,
    ensures
        forall|i: int|
            #![trigger placements(bands[b].cells@, kept, slots, n)[i]]
            0 <= i < placements(bands[b].cells@, kept, slots, n).len() ==> tall_enough(
                placements(bands[b].cells@, kept, slots, n)[i],
            ) && placed_from(bands, placements(bands[b].cells@, kept, slots, n)[i]),
    decreases n,
{
    let cells = bands[b].cells@;
    if n > 0 {
        lemma_placements(bands, b, kept, slots, n - 1);
        let rest = placements(cells, kept, slots, n - 1);
        let all = placements(cells, kept, slots, n);
        let ci = kept[n - 1] as int;
        assert forall|i: int| 0 <= i < all.len() implies tall_enough(all[i]) && placed_from(bands, all[i]) by {
            if i < rest.len() {
                assert(all[i] == rest[i]);
            } else {
                assert(bands[b].cells@[ci].present);
            }
        }
    }
}

proof fn lemma_band_cells(bands: Seq<Band>, b: int, rect: Rect, t: spec_fn(nat) -> Seq<Rect>)
    requires
        0 <= b < bands.len(),
        bands[b].cells@.len() <= usize::MAX,
    ensures
        forall|i: int|
            #![trigger band_cells(bands[b], rect, t)[i]]
            0 <= i < band_cells(bands[b], rect, t).len() ==> tall_enough(band_cells(bands[b], rect, t)[i])
                && placed_from(bands, band_cells(bands[b], rect, t)[i]),
{
    let cells = bands[b].cells@;
    let idx = present_idx(cells);
    lemma_present_upto(cells, cells.len() as int);
    if idx.len() == 0 || rect.height == 0 || rect.width == 0 {
    } else {
        lemma_fit_count(cells, idx, t);
        let kept = idx.take(fit_count(cells, idx, t));
        assert forall|k: int| #![trigger kept[k]] 0 <= k < kept.len() implies kept[k] < cells.len()
            && cells[kept[k] as int].present by {
            assert(kept[k] == idx[k]);
        }
        lemma_placements(bands, b, kept, slots_for(rect, kept.len(), t(kept.len())), kept.len() as int);
    }
}

proof fn lemma_stack(
    area: Rect,
    bands: Seq<Band>,
    live: Seq<usize>,
    h: Seq<u16>,
    n: int,
    tr: Seq<spec_fn(nat) -> Seq<Rect>>,
)
    requires
        forall|j: int| #![trigger live[j]] 0 <= j < live.len() ==> live[j] < bands.len(),
        forall|j: int| #![trigger bands[j]] 0 <= j < bands.len() ==> bands[j].cells@.len() <= usize::MAX,
        n <= live.len(),
    ensures
        forall|i: int|
            #![trigger stack_upto(area, bands, live, h, n, tr)[i]]
            0 <= i < stack_upto(area, bands, live, h, n, tr).len() ==> tall_enough(
                stack_upto(area, bands, live, h, n, tr)[i],
            ) && placed_from(bands, stack_upto(area, bands, live, h, n, tr)[i]),
    decreases n,
{
    if n > 0 {
        let b = live[n - 1] as int;
        let rect = band_rect(area, h, n - 1);
        lemma_band_cells(bands, b, rect, tr[n - 1]);
        lemma_stack(area, bands, live, h, n - 1, tr);
        let head = stack_upto(area, bands, live, h, n - 1, tr);
        let tail = band_cells(bands[b], rect, tr[n - 1]);
        let all = stack_upto(area, bands, live, h, n, tr);
        assert(all =~= head + tail);
        assert forall|i: int| 0 <= i < all.len() implies tall_enough(all[i]) && placed_from(bands, all[i]) by {
            if i < head.len() {
                assert(all[i] == head[i]);
            } else {
                assert(all[i] == tail[i - head.len()]);
            }
        }
    }
}

/// Every cell a pack places stands for a present cell of some band (same
/// id, same jump target, drawn as the kind its height allows for that
/// cell), and is tall enough for what it is drawn as: at least three rows,
/// and at least four for a graph or a cluster. This holds whatever widths
/// the splits of the bands gave.
pub proof fn law_placed_cells_are_present_and_fit(
    area: Rect,
    bands: Seq<Band>,
    tr: Seq<spec_fn(nat) -> Seq<Rect>>,
)
    requires
        bands.len() <= usize::MAX,
        forall|j: int| #![trigger bands[j]] 0 <= j < bands.len() ==> bands[j].cells@.len() <= usize::MAX,
    ensures
        forall|i: int|
            #![trigger pack_spec(area, bands, tr)[i]]
            0 <= i < pack_spec(area, bands, tr).len() ==> tall_enough(pack_spec(area, bands, tr)[i])
                && placed_from(bands, pack_spec(area, bands, tr)[i]),
{
    if area.width != 0 && area.height != 0 {
        let live = kept_bands(area, bands);
        lemma_live_upto(bands, bands.len() as int);
        lemma_trim(bands, live_bands(bands), area.height);
        assert forall|j: int| #![trigger live[j]] 0 <= j < live.len() implies live[j] < bands.len() by {
            assert(live[j] == live_bands(bands)[j]);
        }
        lemma_stack(area, bands, live, band_heights(area, bands), live.len() as int, tr);
    }
}

} // verus!
