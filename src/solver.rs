use vstd::prelude::*;

verus! {

/// Identity of a reactive variable.
pub type VarId = u32;

/// Identity of a dynamic template expression.
pub type ExprId = u32;

/// One reference read by an expression: a variable, or an earlier expression.
#[derive(Clone, Copy, Debug, PartialEq, Eq, Structural)]
pub enum Ref {
    Var(VarId),
    Expr(ExprId),
}

/// A reference that names nothing registered yet.
#[derive(Clone, Copy, Debug, PartialEq, Eq, Structural)]
pub enum SolveError {
    UnresolvedVar(VarId),
    UnresolvedExpr(ExprId),
}

/// Whether `r` names a registered variable or expression.
pub open spec fn ref_resolves(n_vars: nat, n_exprs: nat, r: Ref) -> bool {
    match r {
        Ref::Var(v) => v < n_vars,
        Ref::Expr(e) => e < n_exprs,
    }
}

pub open spec fn body_resolves(n_vars: nat, n_exprs: nat, body: Seq<Ref>) -> bool {
    forall|i: int| 0 <= i < body.len() ==> ref_resolves(n_vars, n_exprs, #[trigger] body[i])
}

/// What one reference contributes, given the closed sets of the earlier expressions.
pub open spec fn ref_deps(closed: Seq<Set<VarId>>, r: Ref) -> Set<VarId> {
    match r {
        Ref::Var(v) => set![v],
        Ref::Expr(e) => closed[e as int],
    }
}

/// The dependency set of an expression body: the union over its references.
pub open spec fn body_deps(closed: Seq<Set<VarId>>, body: Seq<Ref>) -> Set<VarId>
    decreases body.len(),
{
    if body.len() == 0 {
        Set::empty()
    } else {
        body_deps(closed, body.drop_last()).union(ref_deps(closed, body.last()))
    }
}

/// Expression `a` reads expression `b` directly.
pub open spec fn refers(bodies: Seq<Seq<Ref>>, a: ExprId, b: ExprId) -> bool {
    exists|i: int| 0 <= i < bodies[a as int].len() && bodies[a as int][i] == Ref::Expr(b)
}

/// Expression `a` reads expression `b` through a chain of at most `n + 1` references.
pub open spec fn reaches(bodies: Seq<Seq<Ref>>, a: ExprId, b: ExprId, n: nat) -> bool
    decreases n,
{
    refers(bodies, a, b) || (n > 0 && exists|c: ExprId| #[trigger]
        refers(bodies, a, c) && reaches(bodies, c, b, (n - 1) as nat))
}

/// Registry of variables and expressions with transitively closed dependency sets.
pub struct Solver {
    bases: Vec<VarId>,
    deps: Vec<Vec<VarId>>,
    bodies: Ghost<Seq<Seq<Ref>>>,
}

impl Solver {
    pub closed spec fn n_vars(&self) -> nat {
        self.bases@.len()
    }

    pub closed spec fn n_exprs(&self) -> nat {
        self.deps@.len()
    }

    /// The references each registered expression was registered with.
    pub closed spec fn bodies(&self) -> Seq<Seq<Ref>> {
        self.bodies@
    }

    /// The root variable that variable `v` was derived from.
    pub closed spec fn base_of(&self, v: int) -> VarId {
        self.bases@[v]
    }

    /// The resolved dependency set of expression `e`.
    pub closed spec fn dependencies(&self, e: int) -> Set<VarId> {
        Set::new(|v: VarId| self.deps@[e]@.contains(v))
    }

    pub open spec fn closed_sets(&self) -> Seq<Set<VarId>> {
        Seq::new(self.n_exprs(), |e: int| self.dependencies(e))
    }

    pub closed spec fn wf(&self) -> bool {
        &&& self.bodies@.len() == self.deps@.len()
        &&& self.deps@.len() <= u32::MAX
        &&& self.bases@.len() <= u32::MAX
        &&& forall|v: int|
            0 <= v < self.bases@.len() ==> {
                &&& (#[trigger] self.bases@[v]) < self.bases@.len()
                &&& self.bases@[self.bases@[v] as int] == self.bases@[v]
            }
        &&& forall|e: int|
            0 <= e < self.deps@.len() ==> {
                &&& body_resolves(self.n_vars(), e as nat, #[trigger] self.bodies@[e])
                &&& self.dependencies(e) == body_deps(self.closed_sets(), self.bodies@[e])
            }
    }

    pub fn new() -> (r: Solver)
        ensures
            r.wf(),
            r.n_vars() == 0,
            r.n_exprs() == 0,
    {
        Solver { bases: Vec::new(), deps: Vec::new(), bodies: Ghost(Seq::empty()) }
    }

    /// Registers a variable, derived from `derived_from` when given (a loop
    /// binding over another variable), else a root of its own.
    pub fn new_var(&mut self, derived_from: Option<VarId>) -> (r: Result<VarId, SolveError>)
        requires
            old(self).wf(),
            old(self).n_vars() < u32::MAX,
        ensures
            final(self).wf(),
            match derived_from {
                Option::Some(p) if p >= old(self).n_vars() => r == Err::<VarId, SolveError>(
                    SolveError::UnresolvedVar(p),
                ) && *final(self) == *old(self),
                _ => {
                    &&& r == Ok::<VarId, SolveError>(old(self).n_vars() as VarId)
                    &&& final(self).n_vars() == old(self).n_vars() + 1
                    &&& final(self).n_exprs() == old(self).n_exprs()
                    &&& final(self).bodies() == old(self).bodies()
                    &&& forall|e: int|
                        0 <= e < old(self).n_exprs() ==> final(self).dependencies(e) == old(
                            self,
                        ).dependencies(e)
                    &&& forall|v: int|
                        0 <= v < old(self).n_vars() ==> final(self).base_of(v) == old(
                            self,
                        ).base_of(v)
                    &&& final(self).base_of(old(self).n_vars() as int) == match derived_from {
                        Option::Some(p) => old(self).base_of(p as int),
                        Option::None => old(self).n_vars() as VarId,
                    }
                },
            },
    {
        let id = self.bases.len() as VarId;
        let base = match derived_from {
            Option::Some(p) => {
                if p as usize >= self.bases.len() {
                    return Err(SolveError::UnresolvedVar(p));
                }
                self.bases[p as usize]
            },
            Option::None => id,
        };
        let ghost old_closed = self.closed_sets();
        self.bases.push(base);
        assert(self.closed_sets() =~= old_closed);
        assert forall|e: int| 0 <= e < self.deps@.len() implies body_resolves(
            self.n_vars(),
            e as nat,
            #[trigger] self.bodies@[e],
        ) by {
            assert(body_resolves((self.n_vars() - 1) as nat, e as nat, self.bodies@[e]));
        }
        Ok(id)
    }

    /// The root variable that `v` traces back to.
    pub fn var_base(&self, v: VarId) -> (r: VarId)
        requires
            self.wf(),
            v < self.n_vars(),
        ensures
            r == self.base_of(v as int),
            r < self.n_vars(),
            self.base_of(r as int) == r,
    {
        self.bases[v as usize]
    }

    /// Registers an expression that reads `body`, and resolves its dependency
    /// set: each variable it reads, and the whole set of each earlier
    /// expression it embeds.
    pub fn register(&mut self, body: &Vec<Ref>) -> (r: Result<ExprId, SolveError>)
        requires
            old(self).wf(),
            old(self).n_exprs() < u32::MAX,
        ensures
            final(self).wf(),
            r is Ok <==> body_resolves(old(self).n_vars(), old(self).n_exprs(), body@),
            r matches Err(err) ==> {
                &&& *final(self) == *old(self)
                &&& exists|i: int|
                    0 <= i < body@.len() && !ref_resolves(
                        old(self).n_vars(),
                        old(self).n_exprs(),
                        #[trigger] body@[i],
                    ) && body@[i] == match err {
                        SolveError::UnresolvedVar(v) => Ref::Var(v),
                        SolveError::UnresolvedExpr(e) => Ref::Expr(e),
                    }
            },
            r matches Ok(id) ==> {
                &&& id == old(self).n_exprs()
                &&& final(self).n_exprs() == old(self).n_exprs() + 1
                &&& final(self).n_vars() == old(self).n_vars()
                &&& final(self).bodies() == old(self).bodies().push(body@)
                &&& forall|e: int|
                    0 <= e < old(self).n_exprs() ==> final(self).dependencies(e) == old(
                        self,
                    ).dependencies(e)
                &&& forall|v: int|
                    0 <= v < old(self).n_vars() ==> final(self).base_of(v) == old(
                        self,
                    ).base_of(v)
                &&& final(self).dependencies(id as int) == body_deps(
                    old(self).closed_sets(),
                    body@,
                )
            },
    {
        let ghost closed = self.closed_sets();
        let n_vars = self.bases.len();
        let n_exprs = self.deps.len();
        let mut out: Vec<VarId> = Vec::new();
        let mut i: usize = 0;
        while i < body.len()
            invariant
                self.wf(),
                closed == self.closed_sets(),
                n_vars == self.n_vars(),
                n_exprs == self.n_exprs(),
                0 <= i <= body@.len(),
                body_resolves(n_vars as nat, n_exprs as nat, body@.take(i as int)),
                Set::new(|v: VarId| out@.contains(v)) == body_deps(closed, body@.take(i as int)),
            decreases body@.len() - i,
        {
            let ghost before = Set::new(|v: VarId| out@.contains(v));
            assert(body@.take(i + 1).drop_last() =~= body@.take(i as int));
            match body[i] {
                Ref::Var(v) => {
                    if v as usize >= n_vars {
                        return Err(SolveError::UnresolvedVar(v));
                    }
                    push_unique(&mut out, v);
                    assert(Set::new(|x: VarId| out@.contains(x)) =~= before.union(set![v]));
                },
                Ref::Expr(e) => {
                    if e as usize >= n_exprs {
                        return Err(SolveError::UnresolvedExpr(e));
                    }
                    let src = &self.deps[e as usize];
                    extend_unique(&mut out, src);
                    assert(closed[e as int] == self.dependencies(e as int));
                    assert(Set::new(|x: VarId| out@.contains(x)) =~= before.union(closed[e as int]));
                },
            }
            assert(body@.take(i + 1).last() == body@[i as int]);
            assert(Set::new(|v: VarId| out@.contains(v)) =~= body_deps(
                closed,
                body@.take(i + 1),
            ));
            assert forall|k: int| 0 <= k < i + 1 implies ref_resolves(
                n_vars as nat,
                n_exprs as nat,
                #[trigger] body@.take(i + 1)[k],
            ) by {
                if k < i {
                    assert(body@.take(i + 1)[k] == body@.take(i as int)[k]);
                }
            }
            i += 1;
        }
        assert(body@.take(i as int) =~= body@);
        let ghost old_self = *self;
        self.deps.push(out);
        self.bodies = Ghost(self.bodies@.push(body@));
        assert forall|e: int| 0 <= e < old_self.n_exprs() implies self.dependencies(e)
            == old_self.dependencies(e) by {
            assert(self.deps@[e] == old_self.deps@[e]);
        }
        assert(self.closed_sets().take(n_exprs as int) =~= closed);
        assert forall|e: int| 0 <= e < self.deps@.len() implies {
            &&& body_resolves(self.n_vars(), e as nat, #[trigger] self.bodies@[e])
            &&& self.dependencies(e) == body_deps(self.closed_sets(), self.bodies@[e])
        } by {
            lemma_body_deps_prefix(closed, self.closed_sets(), self.bodies@[e], e as nat);
            if e < n_exprs {
                assert(self.bodies@[e] == old_self.bodies@[e]);
            }
        }
        Ok(n_exprs as ExprId)
    }

    /// The resolved dependency set of expression `e`.
    pub fn expr_inner_var(&self, e: ExprId) -> (r: &Vec<VarId>)
        requires
            self.wf(),
            e < self.n_exprs(),
        ensures
            forall|v: VarId| r@.contains(v) <==> self.dependencies(e as int).contains(v),
    {
        &self.deps[e as usize]
    }

    /// Every expression whose dependency set holds `v`, in registration order.
    pub fn dependents(&self, v: VarId) -> (r: Vec<ExprId>)
        requires
            self.wf(),
        ensures
            forall|k: int| 0 <= k < r@.len() ==> (r@[k] as int) < self.n_exprs(),
            forall|e: ExprId|
                (e < self.n_exprs() && self.dependencies(e as int).contains(v)) <==> r@.contains(
                    e,
                ),
            forall|a: int, b: int| 0 <= a < b < r@.len() ==> r@[a] < r@[b],
    {
        let mut out: Vec<ExprId> = Vec::new();
        let mut e: usize = 0;
        while e < self.deps.len()
            invariant
                0 <= e <= self.deps@.len(),
                self.deps@.len() <= u32::MAX,
                forall|k: int| 0 <= k < out@.len() ==> (out@[k] as int) < e,
                forall|x: ExprId|
                    (x < e && self.dependencies(x as int).contains(v)) <==> out@.contains(x),
                forall|a: int, b: int| 0 <= a < b < out@.len() ==> out@[a] < out@[b],
            decreases self.deps@.len() - e,
        {
            proof {
                lemma_push_contains(out@, e as ExprId);
            }
            if contains(&self.deps[e], v) {
                out.push(e as ExprId);
            }
            e += 1;
        }
        out
    }
}

/// Whether `v` occurs in `s`.
pub fn contains(s: &Vec<VarId>, v: VarId) -> (r: bool)
    ensures
        r == s@.contains(v),
{
    let mut i: usize = 0;
    while i < s.len()
        invariant
            0 <= i <= s@.len(),
            forall|k: int| 0 <= k < i ==> s@[k] != v,
        decreases s@.len() - i,
    {
        if s[i] == v {
            return true;
        }
        i += 1;
    }
    false
}

/// Appends `v` unless it is already present.
fn push_unique(s: &mut Vec<VarId>, v: VarId)
    ensures
        forall|x: VarId| final(s)@.contains(x) <==> (old(s)@.contains(x) || x == v),
{
    proof {
        lemma_push_contains(old(s)@, v);
    }
    if !contains(s, v) {
        s.push(v);
    }
}

/// Appends each element of `src` that is not already present.
fn extend_unique(out: &mut Vec<VarId>, src: &Vec<VarId>)
    ensures
        forall|x: VarId| #[trigger] final(out)@.contains(x) <==> (old(out)@.contains(x) || src@.contains(x)),
{
    let mut j: usize = 0;
    while j < src.len()
        invariant
            0 <= j <= src@.len(),
            forall|x: VarId|
                out@.contains(x) <==> (old(out)@.contains(x) || src@.take(j as int).contains(x)),
        decreases src@.len() - j,
    {
        proof {
            assert(src@.take(j + 1) =~= src@.take(j as int).push(src@[j as int]));
            lemma_push_contains(src@.take(j as int), src@[j as int]);
        }
        push_unique(out, src[j]);
        j += 1;
    }
    assert(src@.take(j as int) =~= src@);
}

pub(crate) proof fn lemma_push_contains<T>(s: Seq<T>, v: T)
    ensures
        forall|x: T| #[trigger] s.push(v).contains(x) <==> (s.contains(x) || x == v),
{
    assert forall|x: T| #[trigger] s.push(v).contains(x) <==> (s.contains(x) || x == v) by {
        if s.contains(x) {
            let k = choose|k: int| 0 <= k < s.len() && s[k] == x;
            assert(s.push(v)[k] == x);
        }
        if x == v {
            assert(s.push(v)[s.len() as int] == x);
        }
        if s.push(v).contains(x) {
            let k = choose|k: int| 0 <= k < s.len() + 1 && s.push(v)[k] == x;
            if k < s.len() {
                assert(s[k] == x);
            }
        }
    }
}

/// Resolution of a body that reads only the first `n` expressions does not
/// look past them.
proof fn lemma_body_deps_prefix(
    short: Seq<Set<VarId>>,
    long: Seq<Set<VarId>>,
    body: Seq<Ref>,
    n: nat,
)
    requires
        n <= short.len() <= long.len(),
        forall|e: int| 0 <= e < short.len() ==> short[e] == long[e],
        forall|i: int|
            0 <= i < body.len() ==> (#[trigger] body[i] matches Ref::Expr(e) ==> e < n),
    ensures
        body_deps(short, body) == body_deps(long, body),
    decreases body.len(),
{
    if body.len() > 0 {
        lemma_body_deps_prefix(short, long, body.drop_last(), n);
        assert(body.last() == body[body.len() - 1]);
    }
}

/// A reference in `body` contributes its whole set to the body's set.
proof fn lemma_body_deps_contains(closed: Seq<Set<VarId>>, body: Seq<Ref>, i: int)
    requires
        0 <= i < body.len(),
    ensures
        ref_deps(closed, body[i]).subset_of(body_deps(closed, body)),
    decreases body.len(),
{
    if i < body.len() - 1 {
        lemma_body_deps_contains(closed, body.drop_last(), i);
        assert(body.drop_last()[i] == body[i]);
    }
}

/// Dependency closure: when expression `a` reads expression `b`, directly or
/// through other expressions, every variable that `b` depends on is in the
/// dependency set of `a`.
pub proof fn dependency_closure(s: &Solver, a: ExprId, b: ExprId, w: VarId, n: nat)
    requires
        s.wf(),
        a < s.n_exprs(),
        b < s.n_exprs(),
        reaches(s.bodies(), a, b, n),
        s.dependencies(b as int).contains(w),
    ensures
        s.dependencies(a as int).contains(w),
    decreases n,
{
    if refers(s.bodies(), a, b) {
        let i = choose|i: int|
            0 <= i < s.bodies()[a as int].len() && s.bodies()[a as int][i] == Ref::Expr(b);
        lemma_body_deps_contains(s.closed_sets(), s.bodies@[a as int], i);
    } else {
        let c = choose|c: ExprId|
            #[trigger] refers(s.bodies(), a, c) && reaches(s.bodies(), c, b, (n - 1) as nat);
        let i = choose|i: int|
            0 <= i < s.bodies()[a as int].len() && s.bodies()[a as int][i] == Ref::Expr(c);
        assert(ref_resolves(s.n_vars(), a as nat, s.bodies@[a as int][i]));
        dependency_closure(s, c, b, w, (n - 1) as nat);
        lemma_body_deps_contains(s.closed_sets(), s.bodies@[a as int], i);
    }
}


} // verus!
