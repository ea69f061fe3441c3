use vstd::prelude::*;

use crate::each::RenderCode;

verus! {

/// How a section decides which of its existing rows to patch.
#[derive(Clone, Copy, Debug, PartialEq, Eq, Structural)]
pub enum PatchMode {
    /// The body has no render work.
    Skip,
    /// Every dependency of the body is the row's own binding: patch only
    /// the rows whose dirty marker is set.
    Dirty,
    /// Some dependency reaches outside the row: every pass patches every
    /// overlapping row.
    All,
}

/// One instance of a repeated section: what it shows and its dirty marker.
#[derive(Clone, Copy, Debug, PartialEq, Eq, Structural)]
pub struct Row {
    pub value: u64,
    pub t_root: u64,
}

/// The rows of one repeated section, in the order of the data.
pub struct EachTable {
    pub rows: Vec<Row>,
}

/// What one render pass did.
#[derive(Clone, Copy, Debug, PartialEq, Eq, Structural)]
pub struct RenderReport {
    /// Rows whose body was run again.
    pub patched: usize,
    /// New instances built and inserted.
    pub created: usize,
    /// Rows dropped from the tail.
    pub removed: usize,
    /// The parent's content was cleared in one step.
    pub cleared: bool,
}

pub open spec fn fresh_row(v: u64) -> Row {
    Row { value: v, t_root: 0 }
}

/// Whether a pass in `mode` patches an overlapping row: never without render
/// work, always when the body reads from outside the section, else when the
/// row's marker is set.
pub open spec fn should_patch(r: Row, mode: PatchMode) -> bool {
    match mode {
        PatchMode::Skip => false,
        PatchMode::Dirty => r.t_root != 0,
        PatchMode::All => true,
    }
}

/// The rows after a render pass over `data`.
pub open spec fn rendered_rows(rows: Seq<Row>, data: Seq<u64>, mode: PatchMode) -> Seq<Row> {
    Seq::new(
        data.len(),
        |i: int|
            if i < rows.len() {
                if should_patch(rows[i], mode) {
                    fresh_row(data[i])
                } else {
                    rows[i]
                }
            } else {
                fresh_row(data[i])
            },
    )
}

/// How many of the first `n` rows a pass patches.
pub open spec fn patch_count(rows: Seq<Row>, n: int, mode: PatchMode) -> nat
    decreases n,
{
    if n <= 0 {
        0
    } else {
        patch_count(rows, n - 1, mode) + if should_patch(rows[n - 1], mode) {
            1nat
        } else {
            0nat
        }
    }
}

pub open spec fn min(a: int, b: int) -> int {
    if a <= b {
        a
    } else {
        b
    }
}

/// The report of a render pass over `data`.
pub open spec fn render_report(
    rows: Seq<Row>,
    data: Seq<u64>,
    mode: PatchMode,
    fast_clear: bool,
) -> RenderReport {
    if data.len() == 0 {
        RenderReport {
            patched: 0,
            created: 0,
            removed: rows.len() as usize,
            cleared: fast_clear,
        }
    } else {
        RenderReport {
            patched: patch_count(rows, min(rows.len() as int, data.len() as int), mode) as usize,
            created: if data.len() > rows.len() {
                (data.len() - rows.len()) as usize
            } else {
                0
            },
            removed: if rows.len() > data.len() {
                (rows.len() - data.len()) as usize
            } else {
                0
            },
            cleared: false,
        }
    }
}

pub open spec fn markers_clear(rows: Seq<Row>) -> bool {
    forall|i: int| 0 <= i < rows.len() ==> (#[trigger] rows[i]).t_root == 0
}

proof fn lemma_patch_count_bound(rows: Seq<Row>, n: int, mode: PatchMode)
    ensures
        patch_count(rows, n, mode) <= if n < 0 {
            0
        } else {
            n
        },
    decreases n,
{
    if n > 0 {
        lemma_patch_count_bound(rows, n - 1, mode);
    }
}

proof fn lemma_patch_count_zero(rows: Seq<Row>, n: int, mode: PatchMode)
    requires
        n <= rows.len(),
        markers_clear(rows),
        mode != PatchMode::All,
    ensures
        patch_count(rows, n, mode) == 0,
    decreases n,
{
    if n > 0 {
        lemma_patch_count_zero(rows, n - 1, mode);
    }
}

impl EachTable {
    pub open spec fn view(&self) -> Seq<Row> {
        self.rows@
    }

    /// Builds one row for each item of `data`, each with a clear marker.
    pub fn build(data: &Vec<u64>) -> (r: EachTable)
        ensures
            r@.len() == data@.len(),
            r@ == Seq::new(data@.len(), |i: int| fresh_row(data@[i])),
    {
        let mut rows: Vec<Row> = Vec::new();
        let mut i: usize = 0;
        while i < data.len()
            invariant
                0 <= i <= data@.len(),
                rows@ == Seq::new(i as nat, |k: int| fresh_row(data@[k])),
            decreases data@.len() - i,
        {
            rows.push(Row { value: data[i], t_root: 0 });
            i += 1;
            assert(rows@ =~= Seq::new(i as nat, |k: int| fresh_row(data@[k])));
        }
        EachTable { rows }
    }

    pub fn len(&self) -> (r: usize)
        ensures
            r == self@.len(),
    {
        self.rows.len()
    }

    /// Records that row `i` changed: sets the bits of `bits` in its marker.
    pub fn mark(&mut self, i: usize, bits: u64)
        requires
            i < old(self)@.len(),
        ensures
            final(self)@ == old(self)@.update(
                i as int,
                Row { value: old(self)@[i as int].value, t_root: old(self)@[i as int].t_root | bits },
            ),
    {
        let r = self.rows[i];
        self.rows.set(i, Row { value: r.value, t_root: r.t_root | bits });
    }

    /// One render pass of a section whose update code is `code`, over
    /// `data`. With no data the table is emptied, in one step when the code
    /// clears fast. Otherwise the overlapping rows are patched where
    /// `should_patch` says so (the marker is then cleared), missing rows are
    /// built and appended, and surplus rows are dropped from the tail.
    pub fn render(&mut self, code: &RenderCode, data: &Vec<u64>) -> (r: RenderReport)
        ensures
            final(self)@ == if data@.len() == 0 {
                Seq::empty()
            } else {
                rendered_rows(old(self)@, data@, code.mode)
            },
            r == render_report(old(self)@, data@, code.mode, code.fast_clear),
    {
        let mode = code.mode;
        let fast_clear = code.fast_clear;
        let dom_len = self.rows.len();
        let data_len = data.len();
        if data_len == 0 {
            self.rows.clear();
            return RenderReport { patched: 0, created: 0, removed: dom_len, cleared: fast_clear };
        }
        let ghost old_rows = self.rows@;
        let overlap = if dom_len < data_len {
            dom_len
        } else {
            data_len
        };
        let mut patched: usize = 0;
        let mut i: usize = 0;
        while i < overlap
            invariant
                0 <= i <= overlap,
                overlap == min(old_rows.len() as int, data@.len() as int),
                dom_len == old_rows.len(),
                self.rows@.len() == old_rows.len(),
                patched == patch_count(old_rows, i as int, mode),
                forall|k: int|
                    0 <= k < i ==> self.rows@[k] == rendered_rows(old_rows, data@, mode)[k],
                forall|k: int| i <= k < old_rows.len() ==> self.rows@[k] == old_rows[k],
            decreases overlap - i,
        {
            proof {
                lemma_patch_count_bound(old_rows, i as int, mode);
            }
            let r = self.rows[i];
            let patch = match mode {
                PatchMode::Skip => false,
                PatchMode::Dirty => r.t_root != 0,
                PatchMode::All => true,
            };
            if patch {
                self.rows.set(i, Row { value: data[i], t_root: 0 });
                patched += 1;
            }
            i += 1;
        }
        let mut created: usize = 0;
        let mut removed: usize = 0;
        if dom_len < data_len {
            let mut j: usize = dom_len;
            while j < data_len
                invariant
                    dom_len <= j <= data_len,
                    data_len == data@.len(),
                    dom_len < data_len,
                    dom_len == old_rows.len(),
                    self.rows@.len() == j,
                    created == j - dom_len,
                    forall|k: int|
                        0 <= k < j ==> self.rows@[k] == rendered_rows(old_rows, data@, mode)[k],
                decreases data_len - j,
            {
                self.rows.push(Row { value: data[j], t_root: 0 });
                assert(self.rows@[j as int] == rendered_rows(old_rows, data@, mode)[j as int]);
                created += 1;
                j += 1;
            }
        } else {
            removed = dom_len - data_len;
            self.rows.truncate(data_len);
        }
        assert(self.rows@ =~= rendered_rows(old_rows, data@, mode));
        RenderReport { patched, created, removed, cleared: false }
    }
}

/// Length law: a render pass leaves exactly one row per item of the data,
/// built `max(0, M - N)` new instances and dropped `max(0, N - M)` rows, and
/// never both in the same pass.
pub proof fn length_law(rows: Seq<Row>, data: Seq<u64>, mode: PatchMode, fast_clear: bool)
    requires
        rows.len() <= usize::MAX,
        data.len() <= usize::MAX,
    ensures
        ({
            let after = if data.len() == 0 {
                Seq::empty()
            } else {
                rendered_rows(rows, data, mode)
            };
            let rep = render_report(rows, data, mode, fast_clear);
            &&& after.len() == data.len()
            &&& rep.created == if data.len() > rows.len() {
                data.len() - rows.len()
            } else {
                0
            }
            &&& rep.removed == if rows.len() > data.len() {
                rows.len() - data.len()
            } else {
                0
            }
            &&& rep.created == 0 || rep.removed == 0
        }),
{
}

/// Idempotent render: for a section that patches by marker, one pass clears
/// every marker, and a second pass over the same data patches, builds and
/// drops nothing, and leaves the rows as they were. (A section whose body
/// reads from outside it patches every row on each pass, by design.)
pub proof fn idempotent_render(rows: Seq<Row>, data: Seq<u64>, fast_clear: bool)
    ensures
        ({
            let first = if data.len() == 0 {
                Seq::empty()
            } else {
                rendered_rows(rows, data, PatchMode::Dirty)
            };
            let second = if data.len() == 0 {
                Seq::empty()
            } else {
                rendered_rows(first, data, PatchMode::Dirty)
            };
            let rep = render_report(first, data, PatchMode::Dirty, fast_clear);
            &&& markers_clear(first)
            &&& second == first
            &&& rep.patched == 0
            &&& rep.created == 0
            &&& rep.removed == 0
        }),
{
    let first = if data.len() == 0 {
        Seq::<Row>::empty()
    } else {
        rendered_rows(rows, data, PatchMode::Dirty)
    };
    assert(markers_clear(first)) by {
        assert forall|i: int| 0 <= i < first.len() implies (#[trigger] first[i]).t_root == 0 by {
            if i < rows.len() && !should_patch(rows[i], PatchMode::Dirty) {
                assert(rows[i].t_root == 0);
            }
        }
    }
    if data.len() > 0 {
        lemma_patch_count_zero(first, data.len() as int, PatchMode::Dirty);
        assert(rendered_rows(first, data, PatchMode::Dirty) =~= first);
    }
}

/// A section without render work never patches: a pass over any data leaves
/// the overlapping rows as they were.
pub proof fn skip_patches_nothing(rows: Seq<Row>, data: Seq<u64>, fast_clear: bool)
    requires
        data.len() > 0,
    ensures
        render_report(rows, data, PatchMode::Skip, fast_clear).patched == 0,
        forall|i: int|
            0 <= i < min(rows.len() as int, data.len() as int) ==> #[trigger] rendered_rows(
                rows,
                data,
                PatchMode::Skip,
            )[i] == rows[i],
{
    lemma_patch_count_skip(rows, min(rows.len() as int, data.len() as int));
}

proof fn lemma_patch_count_skip(rows: Seq<Row>, n: int)
    ensures
        patch_count(rows, n, PatchMode::Skip) == 0,
    decreases n,
{
    if n > 0 {
        lemma_patch_count_skip(rows, n - 1);
    }
}

proof fn lemma_patch_count_all(rows: Seq<Row>, n: int)
    requires
        0 <= n,
    ensures
        patch_count(rows, n, PatchMode::All) == n,
    decreases n,
{
    if n > 0 {
        lemma_patch_count_all(rows, n - 1);
    }
}

/// Outer invalidation: a section whose body reads from outside it re-renders
/// every overlapping row on each pass, whatever its marker.
pub proof fn non_local_body_patches_every_row(rows: Seq<Row>, data: Seq<u64>, fast_clear: bool)
    requires
        data.len() > 0,
        rows.len() <= usize::MAX,
    ensures
        render_report(rows, data, PatchMode::All, fast_clear).patched == min(
            rows.len() as int,
            data.len() as int,
        ),
        forall|i: int|
            0 <= i < data.len() ==> #[trigger] rendered_rows(rows, data, PatchMode::All)[i]
                == fresh_row(data[i]),
{
    lemma_patch_count_all(rows, min(rows.len() as int, data.len() as int));
}

} // verus!
