use vstd::prelude::*;

use crate::solver::{ExprId, Solver, VarId};
use crate::table::PatchMode;

verus! {

/// One navigation step from a recorded anchor towards a node.
#[derive(Clone, Copy, Debug, PartialEq, Eq, Structural)]
pub enum Step {
    FirstChild,
    NextSibling,
}

/// Where a scope stands: a top-level region, or inside a dynamic expression.
#[derive(Clone, Copy, Debug, PartialEq, Eq, Structural)]
pub enum Parent {
    Body,
    Head,
    Expr(ExprId),
}

/// The name of a persisted handle in the generated structure.
#[derive(Clone, Copy, Debug, PartialEq, Eq, Structural)]
pub enum FieldName {
    /// The root element of one instance.
    Root,
    /// The rows of a repeated section.
    Table(ExprId),
    /// The element that holds the rows of a repeated section.
    TableDom(ExprId),
    /// A node that a dynamic expression writes to.
    Node(ExprId),
}

/// What a persisted handle holds.
#[derive(Clone, Copy, Debug, PartialEq, Eq, Structural)]
pub enum FieldType {
    Element,
    /// The rows of the repeated section of this expression.
    Rows(ExprId),
}

/// A persisted handle that the generated structure keeps across passes.
#[derive(Clone, Copy, Debug, PartialEq, Eq, Structural)]
pub struct BlackBox {
    pub name: FieldName,
    pub ty: FieldType,
}

/// One generated statement.
#[derive(Clone, Copy, Debug, PartialEq, Eq, Structural)]
pub enum Op {
    /// Write the value of an expression into the node held by a field.
    Text { expr: ExprId, node: FieldName },
    /// Attach the listener of an expression to the node held by a field.
    Listen { expr: ExprId, node: FieldName },
    /// Run the code that a nested section generated for this phase.
    Section(ExprId),
}

/// Render statements guarded by the variables whose change makes them run.
pub struct RenderBuf {
    pub vars: Vec<VarId>,
    pub code: Vec<Op>,
}

/// The navigation from an anchor to a node that a field holds.
pub struct NodePath {
    pub name: FieldName,
    pub steps: Vec<Step>,
}

impl NodePath {
    pub open spec fn view(&self) -> (FieldName, Seq<Step>) {
        (self.name, self.steps@)
    }
}

/// Where the first instance of a section goes: after `base` fixed leading
/// siblings and after the rows of each of `regions`, the dynamic regions
/// registered before it under the same parent.
pub struct InsertPoint {
    pub base: u32,
    pub regions: Vec<ExprId>,
}

/// A child index computed at run time: `offset`, plus the current length of
/// each of `regions`, plus the current length of the section's own table
/// when `after_rows`.
pub struct Position {
    pub offset: u32,
    pub regions: Vec<ExprId>,
    pub after_rows: bool,
}

/// How a new instance joins the live tree.
#[derive(Clone, Copy, Debug, PartialEq, Eq, Structural)]
pub enum Placement {
    /// The section is the last dynamic region of its parent.
    Append,
    /// Later dynamic siblings exist: insert before a node looked up once.
    BeforeCached,
}

/// Initial instantiation of every item.
pub struct BuildCode {
    /// Where the first instance's root is; the next ones follow their predecessor.
    pub anchor: Position,
    pub paths: Vec<NodePath>,
    pub body: Vec<Op>,
}

/// Construction of one new instance from the template.
pub struct NewCode {
    pub paths: Vec<NodePath>,
    pub body: Vec<Op>,
    pub placement: Placement,
    /// The node that the new run goes before, looked up once before growing.
    pub cached: Option<Position>,
}

/// One update pass.
pub struct RenderCode {
    /// Empty data clears the parent in one step.
    pub fast_clear: bool,
    pub mode: PatchMode,
    pub body: Vec<RenderBuf>,
    pub cached: Option<Position>,
}

/// Everything generated for one repeated section.
pub struct EachCode {
    pub id: ExprId,
    pub key: VarId,
    pub index: Option<VarId>,
    pub build: BuildCode,
    pub new: NewCode,
    pub render: RenderCode,
    /// Listener attachment, present when the body has listeners.
    pub hydrate: Option<(Vec<NodePath>, Vec<Op>)>,
    /// The fields of one instance.
    pub fields: Vec<BlackBox>,
}

/// What a nesting level collects while its nodes are visited.
pub struct Scope {
    pub id: Parent,
    pub bases: Vec<VarId>,
    /// Length of the parent's steps when this scope was entered.
    pub parent_id: usize,
    pub steps: Vec<Step>,
    pub path_nodes: Vec<NodePath>,
    pub path_events: Vec<NodePath>,
    pub buff_build: Vec<Op>,
    pub buff_new: Vec<Op>,
    pub buff_render: Vec<RenderBuf>,
    pub buff_hydrate: Vec<Op>,
    pub black_box: Vec<BlackBox>,
    /// Code of the repeated sections completed inside this scope.
    pub sections: Vec<EachCode>,
}

/// A section's root can produce more than one node per item.
#[derive(Clone, Copy, Debug, PartialEq, Eq, Structural)]
pub enum EachError {
    MultipleRoots,
}

pub open spec fn paths_view(p: Seq<NodePath>) -> Seq<(FieldName, Seq<Step>)> {
    Seq::new(p.len(), |i: int| p[i]@)
}

/// The path leads through the wrapper marker of a single-root section.
pub open spec fn starts_with_marker(s: Seq<Step>) -> bool {
    s.len() >= 2 && s[0] == Step::FirstChild && s[1] == Step::FirstChild
}

pub open spec fn all_marked(p: Seq<NodePath>) -> bool {
    forall|i: int| 0 <= i < p.len() ==> starts_with_marker((#[trigger] p[i]).steps@)
}

/// The paths with their leading marker step removed.
pub open spec fn stripped(p: Seq<NodePath>) -> Seq<(FieldName, Seq<Step>)> {
    Seq::new(p.len(), |i: int| (p[i].name, p[i].steps@.drop_first()))
}

/// A copy of `p`.
pub fn clone_paths(p: &Vec<NodePath>) -> (r: Vec<NodePath>)
    ensures
        paths_view(r@) == paths_view(p@),
{
    let mut out: Vec<NodePath> = Vec::new();
    let mut i: usize = 0;
    while i < p.len()
        invariant
            0 <= i <= p@.len(),
            out@.len() == i,
            paths_view(out@) == paths_view(p@.take(i as int)),
        decreases p@.len() - i,
    {
        let ghost prev = out@;
        out.push(NodePath { name: p[i].name, steps: p[i].steps.clone() });
        proof {
            assert forall|k: int| 0 <= k < i + 1 implies paths_view(out@)[k] == paths_view(
                p@.take(i + 1),
            )[k] by {
                if k < i {
                    assert(paths_view(prev)[k] == paths_view(p@.take(i as int))[k]);
                    assert(out@[k] == prev[k]);
                }
            }
        }
        i += 1;
        assert(paths_view(out@) =~= paths_view(p@.take(i as int)));
    }
    assert(p@.take(i as int) =~= p@);
    out
}

/// Removes the wrapper marker that leads each path of a single-root section.
/// Fails where a path does not go through it: the section would have more
/// than one root per item.
pub fn strip_marker(p: &Vec<NodePath>) -> (r: Result<Vec<NodePath>, EachError>)
    ensures
        r is Ok <==> all_marked(p@),
        r matches Ok(s) ==> paths_view(s@) == stripped(p@),
        r matches Err(e) ==> e == EachError::MultipleRoots,
{
    let mut out: Vec<NodePath> = Vec::new();
    let mut i: usize = 0;
    while i < p.len()
        invariant
            0 <= i <= p@.len(),
            forall|k: int| 0 <= k < i ==> starts_with_marker((#[trigger] p@[k]).steps@),
            out@.len() == i,
            paths_view(out@) == stripped(p@.take(i as int)),
        decreases p@.len() - i,
    {
        let steps = &p[i].steps;
        if steps.len() < 2 || steps[0] != Step::FirstChild || steps[1] != Step::FirstChild {
            return Err(EachError::MultipleRoots);
        }
        let mut rest: Vec<Step> = Vec::new();
        let mut j: usize = 1;
        while j < steps.len()
            invariant
                1 <= j <= steps@.len(),
                rest@ == steps@.subrange(1, j as int),
            decreases steps@.len() - j,
        {
            rest.push(steps[j]);
            j += 1;
            assert(rest@ =~= steps@.subrange(1, j as int));
        }
        let ghost prev = out@;
        out.push(NodePath { name: p[i].name, steps: rest });
        proof {
            assert(steps@.subrange(1, steps@.len() as int) =~= steps@.drop_first());
            assert forall|k: int| 0 <= k < i + 1 implies paths_view(out@)[k] == stripped(
                p@.take(i + 1),
            )[k] by {
                if k < i {
                    assert(paths_view(prev)[k] == stripped(p@.take(i as int))[k]);
                    assert(out@[k] == prev[k]);
                }
            }
        }
        i += 1;
        assert(paths_view(out@) =~= stripped(p@.take(i as int)));
    }
    assert(p@.take(i as int) =~= p@);
    Ok(out)
}


/// Every variable that the render buffers read is registered.
pub open spec fn vars_resolved(bufs: Seq<RenderBuf>, n_vars: nat) -> bool {
    forall|i: int, k: int|
        0 <= i < bufs.len() && 0 <= k < bufs[i].vars@.len() ==> (#[trigger] bufs[i].vars@[k])
            < n_vars
}

/// The variables that any of the render buffers reads.
pub open spec fn render_vars(bufs: Seq<RenderBuf>) -> Set<VarId> {
    Set::new(|v: VarId| exists|i: int| 0 <= i < bufs.len() && #[trigger] bufs[i].vars@.contains(v))
}

/// `v` traces back to the item or the index binding of the section.
pub open spec fn is_local(s: Solver, key: VarId, index: Option<VarId>, v: VarId) -> bool {
    s.base_of(v as int) == key || (index matches Option::Some(i) && s.base_of(v as int) == i)
}

/// The variables read by the body that trace outside the section's bindings.
pub open spec fn foreign_vars(s: Solver, bufs: Seq<RenderBuf>, key: VarId, index: Option<VarId>) -> Set<
    VarId,
> {
    render_vars(bufs).filter(|v: VarId| !is_local(s, key, index, v))
}

pub open spec fn patch_mode_of(s: Solver, bufs: Seq<RenderBuf>, key: VarId, index: Option<VarId>) -> PatchMode {
    if bufs.len() == 0 {
        PatchMode::Skip
    } else if foreign_vars(s, bufs, key, index) != Set::<VarId>::empty() {
        PatchMode::All
    } else {
        PatchMode::Dirty
    }
}

/// Whether `v` traces back to the item or the index binding.
pub fn is_local_var(s: &Solver, key: VarId, index: Option<VarId>, v: VarId) -> (r: bool)
    requires
        s.wf(),
        v < s.n_vars(),
    ensures
        r == is_local(*s, key, index, v),
{
    let base = s.var_base(v);
    match index {
        Option::Some(i) => base == key || base == i,
        Option::None => base == key,
    }
}

/// The variables read by the body that trace outside the section's
/// bindings, added to `acc`.
fn collect_foreign(
    s: &Solver,
    bufs: &Vec<RenderBuf>,
    key: VarId,
    index: Option<VarId>,
    acc: &mut Vec<VarId>,
)
    requires
        s.wf(),
        vars_resolved(bufs@, s.n_vars()),
    ensures
        forall|v: VarId| #[trigger]
            final(acc)@.contains(v) <==> (old(acc)@.contains(v) || foreign_vars(
                *s,
                bufs@,
                key,
                index,
            ).contains(v)),
{
    let ghost start = acc@;
    let mut i: usize = 0;
    while i < bufs.len()
        invariant
            s.wf(),
            vars_resolved(bufs@, s.n_vars()),
            0 <= i <= bufs@.len(),
            forall|v: VarId| #[trigger]
                acc@.contains(v) <==> (start.contains(v) || (foreign_vars(
                    *s,
                    bufs@.take(i as int),
                    key,
                    index,
                ).contains(v))),
        decreases bufs@.len() - i,
    {
        let vars = &bufs[i].vars;
        let ghost mid = acc@;
        let mut k: usize = 0;
        while k < vars.len()
            invariant
                s.wf(),
                vars_resolved(bufs@, s.n_vars()),
                0 <= i < bufs@.len(),
                vars == &bufs@[i as int].vars,
                0 <= k <= vars@.len(),
                forall|v: VarId| #[trigger]
                    acc@.contains(v) <==> (mid.contains(v) || (vars@.take(k as int).contains(v)
                        && !is_local(*s, key, index, v))),
            decreases vars@.len() - k,
        {
            let v = vars[k];
            proof {
                assert(vars@.take(k + 1) =~= vars@.take(k as int).push(v));
                crate::solver::lemma_push_contains(vars@.take(k as int), v);
                crate::solver::lemma_push_contains(acc@, v);
                assert(bufs@[i as int].vars@[k as int] < s.n_vars());
            }
            if !is_local_var(s, key, index, v) && !crate::solver::contains(acc, v) {
                acc.push(v);
            }
            k += 1;
        }
        proof {
            assert(vars@.take(k as int) =~= vars@);
            assert forall|v: VarId| #[trigger]
                acc@.contains(v) <==> (start.contains(v) || (foreign_vars(
                    *s,
                    bufs@.take(i + 1),
                    key,
                    index,
                ).contains(v))) by {
                let t = bufs@.take(i + 1);
                if vars@.contains(v) {
                    assert(t[i as int].vars@.contains(v));
                }
                if render_vars(t).contains(v) {
                    let j = choose|j: int| 0 <= j < t.len() && #[trigger] t[j].vars@.contains(v);
                    if j < i {
                        assert(bufs@.take(i as int)[j].vars@.contains(v));
                    }
                }
                if render_vars(bufs@.take(i as int)).contains(v) {
                    let j = choose|j: int|
                        0 <= j < i && #[trigger] bufs@.take(i as int)[j].vars@.contains(v);
                    assert(t[j].vars@.contains(v));
                }
            }
        }
        i += 1;
    }
    assert(bufs@.take(i as int) =~= bufs@);
}

/// The variables whose change must trigger the section's render: those of
/// the section's own expression, and those of the body that trace outside
/// its bindings.
pub fn outer_vars(s: &Solver, id: ExprId, bufs: &Vec<RenderBuf>, key: VarId, index: Option<VarId>) -> (r: Vec<VarId>)
    requires
        s.wf(),
        id < s.n_exprs(),
        vars_resolved(bufs@, s.n_vars()),
    ensures
        forall|v: VarId| #[trigger]
            r@.contains(v) <==> (s.dependencies(id as int).contains(v) || foreign_vars(
                *s,
                bufs@,
                key,
                index,
            ).contains(v)),
{
    let own = s.expr_inner_var(id);
    let mut acc = own.clone();
    collect_foreign(s, bufs, key, index, &mut acc);
    acc
}

/// Which rows a pass patches: none without render work; every row when the
/// body reads a variable from outside the section; else the dirty rows.
pub fn patch_mode(s: &Solver, bufs: &Vec<RenderBuf>, key: VarId, index: Option<VarId>) -> (r: PatchMode)
    requires
        s.wf(),
        vars_resolved(bufs@, s.n_vars()),
    ensures
        r == patch_mode_of(*s, bufs@, key, index),
{
    if bufs.len() == 0 {
        return PatchMode::Skip;
    }
    let mut foreign: Vec<VarId> = Vec::new();
    collect_foreign(s, bufs, key, index, &mut foreign);
    if foreign.len() == 0 {
        assert forall|v: VarId| !foreign_vars(*s, bufs@, key, index).contains(v) by {
            if foreign_vars(*s, bufs@, key, index).contains(v) {
                assert(foreign@.contains(v));
            }
        }
        assert(foreign_vars(*s, bufs@, key, index) =~= Set::<VarId>::empty());
        PatchMode::Dirty
    } else {
        assert(foreign@.contains(foreign@[0]));
        PatchMode::All
    }
}


pub open spec fn sum(s: Seq<usize>) -> int
    decreases s.len(),
{
    if s.len() == 0 {
        0
    } else {
        sum(s.drop_last()) + s.last()
    }
}

/// The child index that `offset`, the current lengths `lens` of the
/// regions, and the table's own length give.
pub open spec fn position_value(offset: u32, lens: Seq<usize>, table_len: usize, after_rows: bool) -> int {
    offset + sum(lens) + if after_rows {
        table_len as int
    } else {
        0
    }
}

/// `p` is the position of `ip`, counting the section's own rows or not.
pub open spec fn placed_at(p: Position, ip: InsertPoint, after_rows: bool) -> bool {
    p.offset == ip.base && p.regions@ == ip.regions@ && p.after_rows == after_rows
}

proof fn lemma_sum_nonneg(s: Seq<usize>)
    ensures
        sum(s) >= 0,
    decreases s.len(),
{
    if s.len() > 0 {
        lemma_sum_nonneg(s.drop_last());
    }
}

impl Position {
    /// The position of `ip`.
    pub fn of(ip: &InsertPoint, after_rows: bool) -> (r: Position)
        ensures
            placed_at(r, *ip, after_rows),
    {
        Position { offset: ip.base, regions: ip.regions.clone(), after_rows }
    }

    /// The child index of this position, given the current length of each
    /// region (in the order of `regions`) and of the section's own table;
    /// `None` where it passes `u32::MAX`.
    pub fn index(&self, lens: &Vec<usize>, table_len: usize) -> (r: Option<u32>)
        requires
            lens@.len() == self.regions@.len(),
        ensures
            r is Some <==> position_value(self.offset, lens@, table_len, self.after_rows)
                <= u32::MAX,
            r matches Option::Some(v) ==> v == position_value(
                self.offset,
                lens@,
                table_len,
                self.after_rows,
            ),
    {
        let mut acc: u64 = self.offset as u64;
        let mut i: usize = 0;
        while i < lens.len()
            invariant
                0 <= i <= lens@.len(),
                acc == self.offset + sum(lens@.take(i as int)),
                acc <= u32::MAX,
            decreases lens@.len() - i,
        {
            assert(lens@.take(i + 1).drop_last() =~= lens@.take(i as int));
            if lens[i] as u64 > u32::MAX as u64 - acc {
                proof {
                    let rest = lens@.subrange(i + 1, lens@.len() as int);
                    lemma_sum_split(lens@, i + 1);
                    lemma_sum_nonneg(rest);
                }
                return None;
            }
            acc = acc + lens[i] as u64;
            i += 1;
        }
        assert(lens@.take(i as int) =~= lens@);
        if self.after_rows {
            if table_len as u64 > u32::MAX as u64 - acc {
                return None;
            }
            acc = acc + table_len as u64;
        }
        Some(acc as u32)
    }
}

proof fn lemma_sum_split(s: Seq<usize>, n: int)
    requires
        0 <= n <= s.len(),
    ensures
        sum(s) == sum(s.take(n)) + sum(s.subrange(n, s.len() as int)),
    decreases s.len(),
{
    if n < s.len() {
        lemma_sum_split(s.drop_last(), n);
        assert(s.drop_last().take(n) =~= s.take(n));
        assert(s.subrange(n, s.len() as int).drop_last() =~= s.drop_last().subrange(
            n,
            s.len() - 1,
        ));
    } else {
        assert(s.take(n) =~= s);
        assert(s.subrange(n, s.len() as int) =~= Seq::<usize>::empty());
    }
}

/// Insertion arithmetic: the node that a growing section inserts its next
/// instance before sits at `k + (sum of the other regions' lengths) +
/// (current table length)`, where `k` is the count of fixed leading siblings.
pub proof fn insertion_arithmetic(code: RenderCode, ip: InsertPoint, lens: Seq<usize>, table_len: usize)
    requires
        code.cached matches Option::Some(p) && placed_at(p, ip, true),
        lens.len() == ip.regions@.len(),
    ensures
        code.cached matches Option::Some(p) && position_value(p.offset, lens, table_len, p.after_rows)
            == ip.base + sum(lens) + table_len,
{
}

/// The child index of the root of item `i` in the initial build: the first
/// at the anchor, each next one the next sibling of the one before.
pub open spec fn build_root(anchor: int, i: nat) -> int
    decreases i,
{
    if i == 0 {
        anchor
    } else {
        build_root(anchor, (i - 1) as nat) + 1
    }
}

impl BuildCode {
    /// The child index of an item's root during the initial build: for the
    /// first item (`prev` is `None`) the anchor, given the current lengths of
    /// the anchor's regions; for a later one the sibling after the previous
    /// item's root `prev`, without deriving the anchor again. `None` where it
    /// passes `u32::MAX`.
    pub fn root_index(&self, lens: &Vec<usize>, prev: Option<u32>) -> (r: Option<u32>)
        requires
            lens@.len() == self.anchor.regions@.len(),
        ensures
            match prev {
                Option::None => {
                    &&& r is Some <==> position_value(self.anchor.offset, lens@, 0, self.anchor.after_rows) <= u32::MAX
                    &&& r matches Option::Some(v) ==> v == position_value(
                        self.anchor.offset,
                        lens@,
                        0,
                        self.anchor.after_rows,
                    )
                },
                Option::Some(p) => {
                    &&& r is Some <==> p < u32::MAX
                    &&& r matches Option::Some(v) ==> v == p + 1
                },
            },
    {
        match prev {
            Option::None => self.anchor.index(lens, 0),
            Option::Some(p) => {
                if p < u32::MAX {
                    Some(p + 1)
                } else {
                    None
                }
            },
        }
    }
}

/// Build placement: with the anchor at the section's insert point, item `i`
/// of the initial build lands at `k + (sum of the other regions' lengths) + i`.
pub proof fn build_places_items_in_order(code: BuildCode, ip: InsertPoint, lens: Seq<usize>, i: nat)
    requires
        placed_at(code.anchor, ip, false),
        lens.len() == ip.regions@.len(),
    ensures
        build_root(position_value(code.anchor.offset, lens, 0, code.anchor.after_rows), i) == ip.base
            + sum(lens) + i,
    decreases i,
{
    if i > 0 {
        build_places_items_in_order(code, ip, lens, (i - 1) as nat);
    }
}

/// Initial instantiation: the first instance is found at the insert point,
/// each next one after its predecessor.
pub fn build_each(paths: Vec<NodePath>, body: Vec<Op>, ip: &InsertPoint) -> (r: BuildCode)
    ensures
        placed_at(r.anchor, *ip, false),
        paths_view(r.paths@) == paths_view(paths@),
        r.body@ == body@,
{
    BuildCode { anchor: Position::of(ip, false), paths, body }
}

/// Construction of one instance: appended when the section is the last
/// dynamic region of its parent, else inserted before a node looked up once
/// at the insert point.
pub fn new_each(paths: Vec<NodePath>, body: Vec<Op>, last: bool, ip: &InsertPoint) -> (r: NewCode)
    ensures
        paths_view(r.paths@) == paths_view(paths@),
        r.body@ == body@,
        r.placement == if last {
            Placement::Append
        } else {
            Placement::BeforeCached
        },
        last ==> r.cached is None,
        !last ==> (r.cached matches Option::Some(p) && placed_at(p, *ip, false)),
{
    if last {
        NewCode { paths, body, placement: Placement::Append, cached: None }
    } else {
        NewCode {
            paths,
            body,
            placement: Placement::BeforeCached,
            cached: Some(Position::of(ip, false)),
        }
    }
}

/// The update pass: its patch mode, whether empty data clears the parent in
/// one step (not for a fragment, whose parent holds other nodes), and, when
/// later dynamic siblings exist, the node that growth inserts before: after
/// the current rows.
pub fn render_each(body: Vec<RenderBuf>, mode: PatchMode, fragment: bool, last: bool, ip: &InsertPoint) -> (r: RenderCode)
    ensures
        r.fast_clear == !fragment,
        r.mode == mode,
        r.body@ == body@,
        last ==> r.cached is None,
        !last ==> (r.cached matches Option::Some(p) && placed_at(p, *ip, true)),
{
    let cached = if last {
        None
    } else {
        Some(Position::of(ip, true))
    };
    RenderCode { fast_clear: !fragment, mode, body, cached }
}


/// A scope just entered: nothing collected yet.
pub open spec fn is_fresh(sc: Scope, id: Parent, bases: Seq<VarId>, parent_id: usize) -> bool {
    &&& sc.id == id
    &&& sc.bases@ == bases
    &&& sc.parent_id == parent_id
    &&& sc.steps@.len() == 0
    &&& sc.path_nodes@.len() == 0
    &&& sc.path_events@.len() == 0
    &&& sc.buff_build@.len() == 0
    &&& sc.buff_new@.len() == 0
    &&& sc.buff_render@.len() == 0
    &&& sc.buff_hydrate@.len() == 0
    &&& sc.black_box@.len() == 0
    &&& sc.sections@.len() == 0
}

/// `a` and `b` agree on everything but their steps and paths.
pub open spec fn same_collected(a: Scope, b: Scope) -> bool {
    &&& a.id == b.id
    &&& a.bases == b.bases
    &&& a.parent_id == b.parent_id
    &&& a.buff_build == b.buff_build
    &&& a.buff_new == b.buff_new
    &&& a.buff_render == b.buff_render
    &&& a.buff_hydrate == b.buff_hydrate
    &&& a.black_box == b.black_box
    &&& a.sections == b.sections
}

impl Scope {
    pub fn new(id: Parent, bases: Vec<VarId>, parent_id: usize) -> (r: Scope)
        ensures
            is_fresh(r, id, bases@, parent_id),
    {
        Scope {
            id,
            bases,
            parent_id,
            steps: Vec::new(),
            path_nodes: Vec::new(),
            path_events: Vec::new(),
            buff_build: Vec::new(),
            buff_new: Vec::new(),
            buff_render: Vec::new(),
            buff_hydrate: Vec::new(),
            black_box: Vec::new(),
            sections: Vec::new(),
        }
    }
}

/// The scopes from the outermost region to the level being visited.
pub struct ScopeStack {
    pub scopes: Vec<Scope>,
}

/// The section's code as `gen_each` builds it from the popped `child` scope.
pub open spec fn each_code_of(
    code: EachCode,
    s: Solver,
    child: Scope,
    id: ExprId,
    key: VarId,
    index: Option<VarId>,
    fragment: bool,
    last: bool,
    ip: InsertPoint,
) -> bool {
    let nodes = stripped(child.path_nodes@);
    let events = stripped(child.path_events@);
    &&& code.id == id
    &&& code.key == key
    &&& code.index == index
    &&& placed_at(code.build.anchor, ip, false)
    &&& paths_view(code.build.paths@) == nodes
    &&& code.build.body@ == child.buff_build@
    &&& paths_view(code.new.paths@) == nodes + events
    &&& code.new.body@ == child.buff_new@
    &&& code.new.placement == if last {
        Placement::Append
    } else {
        Placement::BeforeCached
    }
    &&& last ==> code.new.cached is None
    &&& !last ==> (code.new.cached matches Option::Some(p) && placed_at(p, ip, false))
    &&& code.render.fast_clear == !fragment
    &&& code.render.mode == patch_mode_of(s, child.buff_render@, key, index)
    &&& code.render.body@ == child.buff_render@
    &&& last ==> code.render.cached is None
    &&& !last ==> (code.render.cached matches Option::Some(p) && placed_at(p, ip, true))
    &&& if events.len() == 0 {
        code.hydrate is None
    } else {
        code.hydrate matches Option::Some(h) && paths_view(h.0@) == events && h.1@
            == child.buff_hydrate@
    }
    &&& code.fields@ == child.black_box@.push(BlackBox { name: FieldName::Root, ty: FieldType::Element })
}

impl ScopeStack {
    /// A stack holding the top-level body region.
    pub fn new() -> (r: ScopeStack)
        ensures
            r.scopes@.len() == 1,
            is_fresh(r.scopes@[0], Parent::Body, Seq::empty(), 0),
    {
        let mut scopes: Vec<Scope> = Vec::new();
        scopes.push(Scope::new(Parent::Body, Vec::new(), 0));
        ScopeStack { scopes }
    }

    /// Enters a nested section whose bindings are `bases`; its steps start
    /// where the current scope's steps end.
    pub fn enter(&mut self, id: Parent, bases: Vec<VarId>)
        requires
            old(self).scopes@.len() >= 1,
        ensures
            final(self).scopes@.len() == old(self).scopes@.len() + 1,
            forall|k: int|
                0 <= k < old(self).scopes@.len() ==> final(self).scopes@[k] == old(self).scopes@[k],
            is_fresh(
                final(self).scopes@.last(),
                id,
                bases@,
                old(self).scopes@.last().steps@.len() as usize,
            ),
    {
        let n = self.scopes.len();
        let parent_id = self.scopes[n - 1].steps.len();
        self.scopes.push(Scope::new(id, bases, parent_id));
    }

    /// Records one navigation step in the current scope.
    pub fn step(&mut self, st: Step)
        requires
            old(self).scopes@.len() >= 1,
        ensures
            final(self).scopes@.len() == old(self).scopes@.len(),
            forall|k: int|
                0 <= k < old(self).scopes@.len() - 1 ==> final(self).scopes@[k] == old(self).scopes@[k],
            final(self).scopes@.last().steps@ == old(self).scopes@.last().steps@.push(st),
            final(self).scopes@.last().path_nodes == old(self).scopes@.last().path_nodes,
            final(self).scopes@.last().path_events == old(self).scopes@.last().path_events,
            same_collected(final(self).scopes@.last(), old(self).scopes@.last()),
    {
        let mut top = self.leave_top();
        top.steps.push(st);
        self.scopes.push(top);
    }

    /// Records that the node reached by the current scope's steps is kept in
    /// the field `name`; with `event`, that a listener is attached to it.
    pub fn record(&mut self, name: FieldName, event: bool)
        requires
            old(self).scopes@.len() >= 1,
        ensures
            final(self).scopes@.len() == old(self).scopes@.len(),
            forall|k: int|
                0 <= k < old(self).scopes@.len() - 1 ==> final(self).scopes@[k] == old(self).scopes@[k],
            final(self).scopes@.last().steps == old(self).scopes@.last().steps,
            same_collected(final(self).scopes@.last(), old(self).scopes@.last()),
            !event ==> final(self).scopes@.last().path_events == old(self).scopes@.last().path_events,
            !event ==> paths_view(final(self).scopes@.last().path_nodes@) == paths_view(
                old(self).scopes@.last().path_nodes@,
            ).push((name, old(self).scopes@.last().steps@)),
            event ==> final(self).scopes@.last().path_nodes == old(self).scopes@.last().path_nodes,
            event ==> paths_view(final(self).scopes@.last().path_events@) == paths_view(
                old(self).scopes@.last().path_events@,
            ).push((name, old(self).scopes@.last().steps@)),
    {
        let mut top = self.leave_top();
        let path = NodePath { name, steps: top.steps.clone() };
        let ghost before_nodes = top.path_nodes@;
        let ghost before_events = top.path_events@;
        if event {
            top.path_events.push(path);
            assert(paths_view(top.path_events@) =~= paths_view(before_events).push(
                (name, top.steps@),
            ));
        } else {
            top.path_nodes.push(path);
            assert(paths_view(top.path_nodes@) =~= paths_view(before_nodes).push(
                (name, top.steps@),
            ));
        }
        self.scopes.push(top);
    }

    fn leave_top(&mut self) -> (r: Scope)
        requires
            old(self).scopes@.len() >= 1,
        ensures
            final(self).scopes@ == old(self).scopes@.drop_last(),
            r == old(self).scopes@.last(),
    {
        match self.scopes.pop() {
            Option::Some(sc) => sc,
            Option::None => Scope::new(Parent::Body, Vec::new(), 0),
        }
    }

    /// Leaves the current scope and hands it to the caller, which folds it
    /// into its parent.
    pub fn leave(&mut self) -> (r: Scope)
        requires
            old(self).scopes@.len() >= 2,
        ensures
            final(self).scopes@ == old(self).scopes@.drop_last(),
            r == old(self).scopes@.last(),
    {
        self.leave_top()
    }

    /// Completes the repeated section `id`, whose body was visited in the
    /// current scope: leaves that scope, generates the section's build,
    /// new-instance, render and hydrate code, and folds the section into the
    /// parent scope as one statement per phase, a render buffer guarded by
    /// the outer variables, the path to the rows' parent element and the
    /// table's two fields. Fails, leaving the stack as it was, where a path
    /// of the body does not go through the single root marker.
    pub fn gen_each(
        &mut self,
        s: &Solver,
        id: ExprId,
        key: VarId,
        index: Option<VarId>,
        fragment: bool,
        last: bool,
        ip: &InsertPoint,
    ) -> (r: Result<(), EachError>)
        requires
            old(self).scopes@.len() >= 2,
            s.wf(),
            id < s.n_exprs(),
            vars_resolved(old(self).scopes@.last().buff_render@, s.n_vars()),
        ensures
            ({
                let child = old(self).scopes@.last();
                let n = old(self).scopes@.len();
                let parent = old(self).scopes@[n - 2];
                let top = final(self).scopes@.last();
                &&& r is Ok <==> (all_marked(child.path_nodes@) && all_marked(child.path_events@))
                &&& r is Err ==> *final(self) == *old(self)
                &&& r is Ok ==> {
                    &&& final(self).scopes@.len() == n - 1
                    &&& forall|k: int| 0 <= k < n - 2 ==> final(self).scopes@[k] == old(self).scopes@[k]
                    &&& top.id == parent.id
                    &&& top.bases == parent.bases
                    &&& top.parent_id == parent.parent_id
                    &&& top.steps == parent.steps
                    &&& top.path_events == parent.path_events
                    &&& top.buff_build@ == parent.buff_build@.push(Op::Section(id))
                    &&& top.buff_new@ == parent.buff_new@.push(Op::Section(id))
                    &&& top.buff_hydrate@ == if child.path_events@.len() == 0 {
                        parent.buff_hydrate@
                    } else {
                        parent.buff_hydrate@.push(Op::Section(id))
                    }
                    &&& top.buff_render@.len() == parent.buff_render@.len() + 1
                    &&& top.buff_render@.drop_last() == parent.buff_render@
                    &&& top.buff_render@.last().code@ == seq![Op::Section(id)]
                    &&& forall|v: VarId| #[trigger]
                        top.buff_render@.last().vars@.contains(v) <==> (s.dependencies(
                            id as int,
                        ).contains(v) || foreign_vars(*s, child.buff_render@, key, index).contains(v))
                    &&& top.path_nodes@.drop_last() == parent.path_nodes@
                    &&& top.path_nodes@.last()@ == (
                        FieldName::TableDom(id),
                        parent.steps@.take(
                            if child.parent_id <= parent.steps@.len() {
                                child.parent_id as int
                            } else {
                                parent.steps@.len() as int
                            },
                        ),
                    )
                    &&& top.black_box@ == parent.black_box@.push(
                        BlackBox { name: FieldName::Table(id), ty: FieldType::Rows(id) },
                    ).push(BlackBox { name: FieldName::TableDom(id), ty: FieldType::Element })
                    &&& top.sections@.len() == parent.sections@.len() + child.sections@.len() + 1
                    &&& top.sections@.drop_last() == parent.sections@ + child.sections@
                    &&& each_code_of(top.sections@.last(), *s, child, id, key, index, fragment, last, *ip)
                }
            }),
    {
        let n = self.scopes.len();
        let nodes = match strip_marker(&self.scopes[n - 1].path_nodes) {
            Ok(p) => p,
            Err(e) => {
                return Err(e);
            },
        };
        let events = match strip_marker(&self.scopes[n - 1].path_events) {
            Ok(p) => p,
            Err(e) => {
                return Err(e);
            },
        };
        let ghost child_g = self.scopes@[n - 1];
        let child = self.leave();
        let mode = patch_mode(s, &child.buff_render, key, index);
        let vars = outer_vars(s, id, &child.buff_render, key, index);
        let Scope {
            parent_id,
            buff_build,
            buff_new,
            buff_render,
            buff_hydrate,
            black_box,
            sections,
            ..
        } = child;
        let mut fields = black_box;
        fields.push(BlackBox { name: FieldName::Root, ty: FieldType::Element });
        let build = build_each(clone_paths(&nodes), buff_build, ip);
        let mut new_paths = nodes;
        let mut event_copy = clone_paths(&events);
        let ghost np = new_paths@;
        let ghost ec = event_copy@;
        new_paths.append(&mut event_copy);
        proof {
            assert(paths_view(new_paths@) =~= paths_view(np) + paths_view(ec));
        }
        let new = new_each(new_paths, buff_new, last, ip);
        let render = render_each(buff_render, mode, fragment, last, ip);
        let has_events = events.len() > 0;
        let hydrate = if has_events {
            Some((events, buff_hydrate))
        } else {
            None
        };
        let code = EachCode { id, key, index, build, new, render, hydrate, fields };
        let mut parent = self.leave_top();
        let ghost parent_g = parent;
        let mut guard: Vec<Op> = Vec::new();
        guard.push(Op::Section(id));
        parent.buff_render.push(RenderBuf { vars, code: guard });
        parent.buff_build.push(Op::Section(id));
        parent.buff_new.push(Op::Section(id));
        if has_events {
            parent.buff_hydrate.push(Op::Section(id));
        }
        let upto = if parent_id <= parent.steps.len() {
            parent_id
        } else {
            parent.steps.len()
        };
        let mut prefix: Vec<Step> = Vec::new();
        let mut k: usize = 0;
        while k < upto
            invariant
                0 <= k <= upto <= parent.steps@.len(),
                prefix@ == parent.steps@.take(k as int),
            decreases upto - k,
        {
            prefix.push(parent.steps[k]);
            k += 1;
            assert(prefix@ =~= parent.steps@.take(k as int));
        }
        parent.path_nodes.push(NodePath { name: FieldName::TableDom(id), steps: prefix });
        parent.black_box.push(BlackBox { name: FieldName::Table(id), ty: FieldType::Rows(id) });
        parent.black_box.push(BlackBox { name: FieldName::TableDom(id), ty: FieldType::Element });
        let mut inner = sections;
        parent.sections.append(&mut inner);
        parent.sections.push(code);
        self.scopes.push(parent);
        proof {
            assert(self.scopes@.last().sections@.drop_last() =~= parent_g.sections@ + child_g.sections@);
            assert(self.scopes@.last().path_nodes@.drop_last() =~= parent_g.path_nodes@);
            assert(self.scopes@.last().buff_render@.drop_last() =~= parent_g.buff_render@);
        }
        Ok(())
    }
}


/// A body that reads a variable tracing outside the section's item and
/// index bindings puts the section in the mode that patches every row.
pub proof fn foreign_read_patches_all(s: Solver, bufs: Seq<RenderBuf>, key: VarId, index: Option<VarId>, v: VarId)
    requires
        bufs.len() > 0,
        foreign_vars(s, bufs, key, index).contains(v),
    ensures
        patch_mode_of(s, bufs, key, index) == PatchMode::All,
{
}

} // verus!
