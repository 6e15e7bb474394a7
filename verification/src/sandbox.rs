//! The sandbox resolver: no caller-supplied path may reach outside its
//! designated root directory.
//!
//! Paths are handled as their bytes; `47` is the separator `/`. The caller
//! owns the filesystem queries: it canonicalizes candidate paths (resolving
//! symlinks and relative segments) and feeds each outcome to the step
//! function here, which makes every decision. A target that does not exist
//! yet is checked through its nearest existing ancestor, so a write path
//! can be validated before it is created; the walk gives up with a
//! not-found outcome only when no ancestor exists at all.

use vstd::prelude::*;

verus! {

broadcast use vstd::std_specs::vec::group_vec_axioms, vstd::seq::group_seq_axioms;

/// The path separator byte.
pub const SEPARATOR: u8 = 47;

/// Whether canonical path `target` is `base` itself or a descendant of it:
/// `base` followed at a component boundary by more.
pub open spec fn is_within(base: Seq<u8>, target: Seq<u8>) -> bool {
    ||| target == base
    ||| (base.len() < target.len() && target.subrange(0, base.len() as int) == base && (
        (base.len() > 0 && base.last() == SEPARATOR) || target[base.len() as int] == SEPARATOR
    ))
}

/// Decide `is_within` on byte slices.
#[verifier::loop_isolation(false)]
pub fn path_within(base: &[u8], target: &[u8]) -> (r: bool)
    ensures
        r == is_within(base@, target@),
{
    let nb = base.len();
    let nt = target.len();
    if nt < nb {
        return false;
    }
    let mut i: usize = 0;
    while i < nb
        invariant
            i <= nb,
            forall|j: int| 0 <= j < i ==> base@[j] == target@[j],
        decreases nb - i,
    {
        if base[i] != target[i] {
            proof {
                assert(base@[i as int] != target@[i as int]);
                assert(target@.subrange(0, nb as int) != base@);
            }
            return false;
        }
        i = i + 1;
    }
    proof {
        assert(target@.subrange(0, nb as int) =~= base@);
    }
    if nt == nb {
        proof {
            assert(target@ =~= base@);
        }
        return true;
    }
    if nb > 0 && base[nb - 1] == SEPARATOR {
        return true;
    }
    target[nb] == SEPARATOR
}

/// The path without its trailing separators.
pub open spec fn strip_trailing_slashes(p: Seq<u8>) -> Seq<u8>
    decreases p.len(),
{
    if p.len() > 0 && p.last() == SEPARATOR {
        strip_trailing_slashes(p.drop_last())
    } else {
        p
    }
}

/// The path without its final component (trailing non-separator bytes).
pub open spec fn drop_component(p: Seq<u8>) -> Seq<u8>
    decreases p.len(),
{
    if p.len() > 0 && p.last() != SEPARATOR {
        drop_component(p.drop_last())
    } else {
        p
    }
}

/// `strip_trailing_slashes` keeps exactly the prefix before the trailing
/// separators.
proof fn lemma_strip_prefix(p: Seq<u8>, i: int)
    requires
        0 <= i <= p.len(),
        forall|j: int| i <= j < p.len() ==> p[j] == SEPARATOR,
        i > 0 ==> p[i - 1] != SEPARATOR,
    ensures
        strip_trailing_slashes(p) == p.take(i),
    decreases p.len(),
{
    if p.len() == i {
        assert(p.take(i) =~= p);
    } else {
        assert(p.last() == SEPARATOR);
        lemma_strip_prefix(p.drop_last(), i);
        assert(p.drop_last().take(i) =~= p.take(i));
    }
}

/// `drop_component` keeps exactly the prefix before the final component.
proof fn lemma_drop_component_prefix(p: Seq<u8>, i: int)
    requires
        0 <= i <= p.len(),
        forall|j: int| i <= j < p.len() ==> p[j] != SEPARATOR,
        i > 0 ==> p[i - 1] == SEPARATOR,
    ensures
        drop_component(p) == p.take(i),
    decreases p.len(),
{
    if p.len() == i {
        assert(p.take(i) =~= p);
    } else {
        assert(p.last() != SEPARATOR);
        lemma_drop_component_prefix(p.drop_last(), i);
        assert(p.drop_last().take(i) =~= p.take(i));
    }
}

/// The parent path: trailing separators, then the final component, then
/// the separators before it are dropped; the root keeps its one
/// separator, and a bare name's parent is the empty path. The empty path
/// and the root have no parent.
pub open spec fn parent_view(p: Seq<u8>) -> Option<Seq<u8>> {
    let q = strip_trailing_slashes(p);
    if q.len() == 0 {
        None
    } else {
        let d = drop_component(q);
        if d.len() == 0 {
            Some(Seq::empty())
        } else {
            let s = strip_trailing_slashes(d);
            if s.len() == 0 {
                Some(seq![SEPARATOR])
            } else {
                Some(s)
            }
        }
    }
}

/// Compute the parent path.
#[verifier::loop_isolation(false)]
pub fn parent_of(p: &[u8]) -> (r: Option<Vec<u8>>)
    ensures
        (match r {
            Some(v) => Some(v@),
            None => None,
        }) == parent_view(p@),
{
    let n = p.len();
    let mut e: usize = n;
    while e > 0 && p[e - 1] == SEPARATOR
        invariant
            e <= n,
            forall|j: int| e <= j < n ==> p@[j] == SEPARATOR,
        decreases e,
    {
        e = e - 1;
    }
    proof {
        lemma_strip_prefix(p@, e as int);
    }
    if e == 0 {
        return None;
    }
    let ghost q = p@.take(e as int);
    let mut j: usize = e;
    while j > 0 && p[j - 1] != SEPARATOR
        invariant
            j <= e,
            forall|k: int| j <= k < e ==> p@[k] != SEPARATOR,
        decreases j,
    {
        j = j - 1;
    }
    proof {
        assert forall|k: int| j as int <= k < q.len() implies q[k] != SEPARATOR by {
            assert(q[k] == p@[k]);
        }
        lemma_drop_component_prefix(q, j as int);
        assert(q.take(j as int) =~= p@.take(j as int));
    }
    if j == 0 {
        return Some(Vec::new());
    }
    let ghost d = p@.take(j as int);
    let mut k: usize = j;
    while k > 0 && p[k - 1] == SEPARATOR
        invariant
            k <= j,
            forall|t: int| k <= t < j ==> p@[t] == SEPARATOR,
        decreases k,
    {
        k = k - 1;
    }
    proof {
        assert forall|t: int| k as int <= t < d.len() implies d[t] == SEPARATOR by {
            assert(d[t] == p@[t]);
        }
        lemma_strip_prefix(d, k as int);
        assert(d.take(k as int) =~= p@.take(k as int));
    }
    if k == 0 {
        let mut root: Vec<u8> = Vec::new();
        root.push(SEPARATOR);
        proof {
            assert(root@ =~= seq![SEPARATOR]);
        }
        return Some(root);
    }
    let out = vstd::slice::slice_to_vec(&p[0..k]);
    proof {
        assert(out@ =~= p@.take(k as int));
    }
    Some(out)
}

/// Stripping trailing separators never lengthens a path.
proof fn lemma_strip_le(p: Seq<u8>)
    ensures
        strip_trailing_slashes(p).len() <= p.len(),
    decreases p.len(),
{
    if p.len() > 0 && p.last() == SEPARATOR {
        lemma_strip_le(p.drop_last());
    }
}

/// A stripped path does not end with a separator.
proof fn lemma_strip_last(p: Seq<u8>)
    ensures
        strip_trailing_slashes(p).len() > 0 ==> strip_trailing_slashes(p).last() != SEPARATOR,
    decreases p.len(),
{
    if p.len() > 0 && p.last() == SEPARATOR {
        lemma_strip_last(p.drop_last());
    }
}

/// Dropping the final component never lengthens a path.
proof fn lemma_drop_le(p: Seq<u8>)
    ensures
        drop_component(p).len() <= p.len(),
    decreases p.len(),
{
    if p.len() > 0 && p.last() != SEPARATOR {
        lemma_drop_le(p.drop_last());
    }
}

/// A parent path is strictly shorter than the path itself.
pub proof fn lemma_parent_shorter(p: Seq<u8>)
    ensures
        match parent_view(p) {
            Some(q) => q.len() < p.len(),
            None => true,
        },
{
    lemma_strip_le(p);
    lemma_strip_last(p);
    let q = strip_trailing_slashes(p);
    if q.len() > 0 {
        let d = drop_component(q);
        assert(d == drop_component(q.drop_last()));
        lemma_drop_le(q.drop_last());
        lemma_strip_le(d);
    }
}

/// One outcome of asking the filesystem to canonicalize a candidate path.
#[derive(Debug, Clone, PartialEq, Eq)]
pub enum CanonResult {
    /// The path exists; this is its canonical (symlink-free, absolute) form.
    Canonical(Vec<u8>),
    /// The path does not exist.
    Missing,
    /// The query failed for another reason (permissions, broken storage).
    Failed,
}

/// Mathematical shape of a `CanonResult`.
pub enum CanonModel {
    Canonical(Seq<u8>),
    Missing,
    Failed,
}

impl CanonResult {
    /// The outcome as a mathematical record.
    pub open spec fn model(self) -> CanonModel {
        match self {
            CanonResult::Canonical(v) => CanonModel::Canonical(v@),
            CanonResult::Missing => CanonModel::Missing,
            CanonResult::Failed => CanonModel::Failed,
        }
    }
}

/// The verdict on one candidate path.
#[derive(PartialEq, Eq, Structural, Clone, Copy, Debug)]
pub enum PathCheck {
    /// The canonical form lies inside the root.
    Allowed,
    /// The canonical form lies outside the root: a sandbox violation,
    /// reported to the caller and never silently corrected.
    Violation,
    /// Neither the target nor any ancestor of it exists.
    NotFound,
    /// A filesystem query failed; the failure is passed through.
    IoFailed,
}

/// What the resolver asks next: a decision, or the parent to canonicalize.
#[derive(Debug, Clone, PartialEq, Eq)]
pub enum ResolveStep {
    Decided(PathCheck),
    Ascend(Vec<u8>),
}

/// Mathematical shape of a `ResolveStep`.
pub enum StepModel {
    Decided(PathCheck),
    Ascend(Seq<u8>),
}

impl ResolveStep {
    /// The step as a mathematical record.
    pub open spec fn model(self) -> StepModel {
        match self {
            ResolveStep::Decided(d) => StepModel::Decided(d),
            ResolveStep::Ascend(v) => StepModel::Ascend(v@),
        }
    }
}

/// What one step decides. A canonical form is checked for containment at
/// once; a missing candidate sends the walk to its parent, or ends it with
/// a not-found verdict when no parent is left; any other failure is passed
/// through.
pub open spec fn spec_step(base: Seq<u8>, candidate: Seq<u8>, attempt: CanonModel) -> StepModel {
    match attempt {
        CanonModel::Canonical(c) => StepModel::Decided(
            if is_within(base, c) {
                PathCheck::Allowed
            } else {
                PathCheck::Violation
            },
        ),
        CanonModel::Failed => StepModel::Decided(PathCheck::IoFailed),
        CanonModel::Missing => match parent_view(candidate) {
            Some(par) => StepModel::Ascend(par),
            None => StepModel::Decided(PathCheck::NotFound),
        },
    }
}

/// Take one resolution step: `attempt` is what canonicalizing `candidate`
/// returned, `base` is the canonical sandbox root.
pub fn ensure_under_step(base: &[u8], candidate: &[u8], attempt: &CanonResult) -> (r: ResolveStep)
    ensures
        r.model() == spec_step(base@, candidate@, attempt.model()),
{
    match attempt {
        CanonResult::Canonical(c) => ResolveStep::Decided(
            if path_within(base, c.as_slice()) {
                PathCheck::Allowed
            } else {
                PathCheck::Violation
            },
        ),
        CanonResult::Failed => ResolveStep::Decided(PathCheck::IoFailed),
        CanonResult::Missing => match parent_of(candidate) {
            Some(par) => ResolveStep::Ascend(par),
            None => ResolveStep::Decided(PathCheck::NotFound),
        },
    }
}

/// How many candidates the walk can visit from `p`: the path itself and
/// each of its ancestors.
pub open spec fn chain_len(p: Seq<u8>) -> nat
    decreases p.len(),
    via chain_len_decreases
{
    match parent_view(p) {
        None => 1,
        Some(q) => 1 + chain_len(q),
    }
}

#[via_fn]
proof fn chain_len_decreases(p: Seq<u8>) {
    lemma_parent_shorter(p);
}

/// The model of a list of canonicalization outcomes.
pub open spec fn attempts_model(attempts: Seq<CanonResult>) -> Seq<CanonModel>
    decreases attempts,
{
    if attempts.len() == 0 {
        Seq::empty()
    } else {
        seq![attempts[0].model()] + attempts_model(attempts.drop_first())
    }
}

/// `attempts_model` maps the list outcome by outcome.
pub proof fn lemma_attempts_model(attempts: Seq<CanonResult>)
    ensures
        attempts_model(attempts).len() == attempts.len(),
        forall|i: int|
            0 <= i < attempts.len() ==> #[trigger] attempts_model(attempts)[i]
                == attempts[i].model(),
    decreases attempts,
{
    if attempts.len() > 0 {
        lemma_attempts_model(attempts.drop_first());
        assert forall|i: int| 0 <= i < attempts.len() implies #[trigger] attempts_model(
            attempts,
        )[i] == attempts[i].model() by {
            if i > 0 {
                assert(attempts.drop_first()[i - 1] == attempts[i]);
            }
        }
    }
}

/// The verdict of the whole walk: step through the outcomes, descending to
/// the parent after each missing candidate.
pub open spec fn spec_resolve(base: Seq<u8>, candidate: Seq<u8>, attempts: Seq<CanonModel>) -> PathCheck
    decreases attempts.len(),
{
    if attempts.len() == 0 {
        PathCheck::IoFailed
    } else {
        match spec_step(base, candidate, attempts[0]) {
            StepModel::Decided(d) => d,
            StepModel::Ascend(par) => spec_resolve(base, par, attempts.drop_first()),
        }
    }
}

/// Check that `target` lies under the canonical root `base`, walking up to
/// the nearest existing ancestor when the target itself does not exist.
/// `attempts[i]` is what canonicalizing the `i`-th visited candidate
/// returned (the target first, then each parent in turn); `chain_len`
/// bounds how many the walk can need.
#[verifier::loop_isolation(false)]
pub fn ensure_under(base: &[u8], target: &[u8], attempts: &Vec<CanonResult>) -> (r: PathCheck)
    requires
        attempts@.len() >= chain_len(target@),
    ensures
        r == spec_resolve(base@, target@, attempts_model(attempts@)),
{
    proof {
        lemma_attempts_model(attempts@);
    }
    let ghost am = attempts_model(attempts@);
    let n = attempts.len();
    let mut candidate = vstd::slice::slice_to_vec(target);
    let mut i: usize = 0;
    proof {
        assert(am.skip(0) =~= am);
    }
    loop
        invariant
            i < n,
            n == attempts@.len(),
            am.len() == n,
            chain_len(candidate@) <= n - i,
            spec_resolve(base@, target@, am) == spec_resolve(base@, candidate@, am.skip(i as int)),
        decreases n - i,
    {
        let step = ensure_under_step(base, candidate.as_slice(), &attempts[i]);
        proof {
            assert(am.skip(i as int)[0] == am[i as int]);
        }
        match step {
            ResolveStep::Decided(d) => {
                proof {
                    assert(spec_resolve(base@, candidate@, am.skip(i as int)) == d);
                }
                return d;
            },
            ResolveStep::Ascend(par) => {
                proof {
                    lemma_parent_shorter(candidate@);
                    assert(chain_len(candidate@) == 1 + chain_len(par@));
                    assert(am.skip(i as int).drop_first() =~= am.skip(i as int + 1));
                }
                candidate = par;
                i = i + 1;
            },
        }
    }
}

/// A validated path: the canonical form the filesystem reported for the
/// target, or for its nearest existing ancestor, and whether the target
/// itself existed. Computed fresh per request, never cached.
#[derive(Debug, Clone, PartialEq, Eq)]
pub struct ResolvedPath {
    pub canonical: Vec<u8>,
    pub existed: bool,
}

/// The canonical form the walk decides on: the first candidate the
/// filesystem could canonicalize.
pub open spec fn spec_resolve_canon(candidate: Seq<u8>, attempts: Seq<CanonModel>) -> Option<
    Seq<u8>,
>
    decreases attempts.len(),
{
    if attempts.len() == 0 {
        None
    } else {
        match attempts[0] {
            CanonModel::Canonical(c) => Some(c),
            CanonModel::Failed => None,
            CanonModel::Missing => match parent_view(candidate) {
                Some(par) => spec_resolve_canon(par, attempts.drop_first()),
                None => None,
            },
        }
    }
}

/// Resolve `target` under the canonical root `base`: the canonical form of
/// the target (or of its nearest existing ancestor, so a write path can be
/// validated before it is created) when it lies inside the root, or the
/// error class of the verdict. A path that resolves outside the root is a
/// sandbox violation, never silently corrected.
#[verifier::loop_isolation(false)]
pub fn resolve_under(base: &[u8], target: &[u8], attempts: &Vec<CanonResult>) -> (r: Result<
    ResolvedPath,
    crate::CoreError,
>)
    requires
        attempts@.len() >= chain_len(target@),
    ensures
        r is Ok <==> spec_resolve(base@, target@, attempts_model(attempts@)) == PathCheck::Allowed,
        r matches Ok(rp) ==> {
            &&& Some(rp.canonical@) == spec_resolve_canon(target@, attempts_model(attempts@))
            &&& is_within(base@, rp.canonical@)
            &&& rp.existed == (attempts_model(attempts@)[0] is Canonical)
        },
        r matches Err(e) ==> Some(e) == (match spec_resolve(
            base@,
            target@,
            attempts_model(attempts@),
        ) {
            PathCheck::Allowed => None,
            PathCheck::Violation => Some(crate::CoreError::SandboxViolation),
            PathCheck::NotFound => Some(crate::CoreError::NotFound),
            PathCheck::IoFailed => Some(crate::CoreError::Io),
        }),
{
    proof {
        lemma_attempts_model(attempts@);
    }
    let ghost am = attempts_model(attempts@);
    let n = attempts.len();
    let mut candidate = vstd::slice::slice_to_vec(target);
    let mut i: usize = 0;
    proof {
        assert(am.skip(0) =~= am);
    }
    loop
        invariant
            i < n,
            n == attempts@.len(),
            am.len() == n,
            chain_len(candidate@) <= n - i,
            spec_resolve(base@, target@, am) == spec_resolve(base@, candidate@, am.skip(i as int)),
            spec_resolve_canon(target@, am) == spec_resolve_canon(candidate@, am.skip(i as int)),
            i > 0 ==> !(am[0] is Canonical),
        decreases n - i,
    {
        proof {
            assert(am.skip(i as int)[0] == am[i as int]);
        }
        match &attempts[i] {
            CanonResult::Canonical(c) => {
                let inside = path_within(base, c.as_slice());
                if inside {
                    return Ok(ResolvedPath { canonical: c.clone(), existed: i == 0 });
                }
                return Err(crate::CoreError::SandboxViolation);
            },
            CanonResult::Failed => {
                return Err(crate::CoreError::Io);
            },
            CanonResult::Missing => {
                match parent_of(candidate.as_slice()) {
                    Some(par) => {
                        proof {
                            lemma_parent_shorter(candidate@);
                            assert(chain_len(candidate@) == 1 + chain_len(par@));
                            assert(am.skip(i as int).drop_first() =~= am.skip(i as int + 1));
                        }
                        candidate = par;
                        i = i + 1;
                    },
                    None => {
                        return Err(crate::CoreError::NotFound);
                    },
                }
            },
        }
    }
}

/// Whenever the walk allows a path, some visited candidate was
/// canonicalized by the filesystem to a form lying inside the root: the
/// resolver never accepts a path whose canonical form it has not seen to
/// be a descendant of the root.
pub proof fn lemma_allowed_is_inside(base: Seq<u8>, candidate: Seq<u8>, attempts: Seq<CanonModel>)
    ensures
        spec_resolve(base, candidate, attempts) == PathCheck::Allowed ==> exists|i: int|
            0 <= i < attempts.len() && ((#[trigger] attempts[i]) matches CanonModel::Canonical(
                c,
            ) && is_within(base, c)),
    decreases attempts.len(),
{
    if attempts.len() > 0 && spec_resolve(base, candidate, attempts) == PathCheck::Allowed {
        match spec_step(base, candidate, attempts[0]) {
            StepModel::Decided(d) => {
                assert(attempts[0] matches CanonModel::Canonical(c) && is_within(base, c));
            },
            StepModel::Ascend(par) => {
                lemma_allowed_is_inside(base, par, attempts.drop_first());
                let w = choose|w: int|
                    0 <= w < attempts.drop_first().len() && ((#[trigger] attempts.drop_first()[w])
                        matches CanonModel::Canonical(c) && is_within(base, c));
                assert(attempts[w + 1] == attempts.drop_first()[w]);
            },
        }
    }
}

/// A missing target is still rejected when its nearest existing ancestor
/// canonicalizes outside the root: after any run of missing candidates
/// that leaves ancestors to walk, an outside canonical form decides the
/// walk as a violation.
pub proof fn lemma_outside_ancestor_rejected(
    base: Seq<u8>,
    candidate: Seq<u8>,
    attempts: Seq<CanonModel>,
    k: int,
)
    requires
        0 <= k < attempts.len(),
        forall|j: int| 0 <= j < k ==> attempts[j] is Missing,
        attempts[k] matches CanonModel::Canonical(c) && !is_within(base, c),
        chain_len(candidate) > k,
    ensures
        spec_resolve(base, candidate, attempts) == PathCheck::Violation,
    decreases k,
{
    if k == 0 {
    } else {
        assert(attempts[0] is Missing);
        match parent_view(candidate) {
            Some(par) => {
                assert(chain_len(par) == chain_len(candidate) - 1);
                assert forall|j: int| 0 <= j < k - 1 implies attempts.drop_first()[j]
                    is Missing by {
                    assert(attempts.drop_first()[j] == attempts[j + 1]);
                }
                assert(attempts.drop_first()[k - 1] == attempts[k]);
                lemma_outside_ancestor_rejected(base, par, attempts.drop_first(), k - 1);
            },
            None => {
                assert(chain_len(candidate) == 1);
                assert(false);
            },
        }
    }
}

/// What joining a caller-supplied path to the root gives: an absolute path
/// is taken as it is, a relative one goes under the root behind one
/// separator.
pub open spec fn spec_join_under(root: Seq<u8>, given: Seq<u8>) -> Seq<u8> {
    if given.len() > 0 && given[0] == SEPARATOR {
        given
    } else {
        root + seq![SEPARATOR] + given
    }
}

/// Join a caller-supplied path to the root.
pub fn join_under(root: &[u8], given: &[u8]) -> (r: Vec<u8>)
    ensures
        r@ == spec_join_under(root@, given@),
{
    if given.len() > 0 && given[0] == SEPARATOR {
        return vstd::slice::slice_to_vec(given);
    }
    let mut out = vstd::slice::slice_to_vec(root);
    out.push(SEPARATOR);
    let mut i: usize = 0;
    let n = given.len();
    while i < n
        invariant
            i <= n,
            n == given@.len(),
            out@ =~= root@ + seq![SEPARATOR] + given@.take(i as int),
        decreases n - i,
    {
        out.push(given[i]);
        proof {
            assert(given@.take(i as int).push(given@[i as int]) =~= given@.take(i as int + 1));
        }
        i = i + 1;
    }
    proof {
        assert(given@.take(n as int) =~= given@);
    }
    out
}

/// The extension dot byte.
pub const DOT: u8 = 46;

/// The final component of a path: everything after its last separator.
pub open spec fn final_component(p: Seq<u8>) -> Seq<u8> {
    p.skip(drop_component(p).len() as int)
}

/// The extension of a component: what follows its last dot, provided that
/// dot is not the component's first byte.
pub open spec fn ext_of_component(c: Seq<u8>) -> Option<Seq<u8>>
    decreases c.len(),
{
    if c.len() <= 1 {
        None
    } else if c.last() == DOT {
        Some(Seq::empty())
    } else {
        match ext_of_component(c.drop_last()) {
            Some(e) => Some(e.push(c.last())),
            None => None,
        }
    }
}

/// The extension of a path's final component.
pub open spec fn spec_extension(p: Seq<u8>) -> Option<Seq<u8>> {
    ext_of_component(final_component(p))
}

/// With the last dot at `di` (not first in the component), the extension
/// is what follows it.
proof fn lemma_ext_at(c: Seq<u8>, di: int)
    requires
        0 < di < c.len(),
        c[di] == DOT,
        forall|j: int| di < j < c.len() ==> c[j] != DOT,
    ensures
        ext_of_component(c) == Some(c.skip(di + 1)),
    decreases c.len(),
{
    if di == c.len() - 1 {
        assert(c.last() == DOT);
        assert(c.skip(di + 1) =~= Seq::<u8>::empty());
    } else {
        assert(c.last() != DOT);
        lemma_ext_at(c.drop_last(), di);
        assert(c.drop_last().skip(di + 1).push(c.last()) =~= c.skip(di + 1));
    }
}

/// With no dot past the component's first byte, there is no extension.
proof fn lemma_ext_none(c: Seq<u8>)
    requires
        forall|j: int| 1 <= j < c.len() ==> c[j] != DOT,
    ensures
        ext_of_component(c) is None,
    decreases c.len(),
{
    if c.len() > 1 {
        assert(c.last() != DOT);
        lemma_ext_none(c.drop_last());
    }
}

/// The extension of a path's final component, when the component has one
/// past its first byte.
#[verifier::loop_isolation(false)]
pub fn extension_of(p: &[u8]) -> (r: Option<Vec<u8>>)
    ensures
        (match r {
            Some(v) => Some(v@),
            None => None,
        }) == spec_extension(p@),
{
    let n = p.len();
    let mut cs: usize = n;
    while cs > 0 && p[cs - 1] != SEPARATOR
        invariant
            cs <= n,
            forall|j: int| cs <= j < n ==> p@[j] != SEPARATOR,
        decreases cs,
    {
        cs = cs - 1;
    }
    proof {
        lemma_drop_component_prefix(p@, cs as int);
    }
    let ghost c = final_component(p@);
    proof {
        assert(c =~= p@.skip(cs as int));
    }
    let mut di: usize = n;
    while di > cs && p[di - 1] != DOT
        invariant
            cs <= di <= n,
            forall|j: int| di <= j < n ==> p@[j] != DOT,
        decreases di,
    {
        di = di - 1;
    }
    if di - cs <= 1 {
        proof {
            assert forall|j: int| 1 <= j < c.len() implies c[j] != DOT by {
                assert(c[j] == p@[cs + j]);
            }
            lemma_ext_none(c);
        }
        return None;
    }
    proof {
        assert(p@[di - 1] == DOT);
        assert(c[di - 1 - (cs as int)] == DOT);
        assert forall|j: int| di - 1 - (cs as int) < j < c.len() implies c[j] != DOT by {
            assert(c[j] == p@[cs + j]);
        }
        lemma_ext_at(c, di - 1 - (cs as int));
        assert(c.skip(di - (cs as int)) =~= p@.skip(di as int));
    }
    let out = vstd::slice::slice_to_vec(&p[di..n]);
    proof {
        assert(out@ =~= p@.skip(di as int));
    }
    Some(out)
}

/// The ASCII lowercase of one byte.
pub open spec fn ascii_lower(b: u8) -> u8 {
    if 65 <= b <= 90 {
        (b + 32) as u8
    } else {
        b
    }
}

/// The ASCII lowercase of a byte string.
pub open spec fn ascii_lower_seq(s: Seq<u8>) -> Seq<u8> {
    s.map_values(|b: u8| ascii_lower(b))
}

/// Lowercase a byte string, ASCII letters only.
#[verifier::loop_isolation(false)]
pub fn to_ascii_lower(s: &[u8]) -> (r: Vec<u8>)
    ensures
        r@ == ascii_lower_seq(s@),
{
    let n = s.len();
    let mut out: Vec<u8> = Vec::new();
    let mut i: usize = 0;
    while i < n
        invariant
            i <= n,
            out@.len() == i,
            forall|j: int| 0 <= j < i ==> out@[j] == ascii_lower(s@[j]),
        decreases n - i,
    {
        let b = s[i];
        if 65 <= b && b <= 90 {
            out.push(b + 32);
        } else {
            out.push(b);
        }
        i = i + 1;
    }
    proof {
        assert(out@ =~= ascii_lower_seq(s@));
    }
    out
}

/// Whether the path's extension, compared without regard to ASCII case, is
/// on the allow-list. A path without an extension is never allowed.
pub open spec fn spec_extension_allowed(p: Seq<u8>, allow: Seq<Seq<u8>>) -> bool {
    match spec_extension(p) {
        Some(e) => exists|k: int|
            0 <= k < allow.len() && ascii_lower_seq(#[trigger] allow[k]) == ascii_lower_seq(e),
        None => false,
    }
}

/// Decide the extension allow-list filter.
#[verifier::loop_isolation(false)]
pub fn extension_allowed(p: &[u8], allow: &Vec<Vec<u8>>) -> (r: bool)
    ensures
        r == spec_extension_allowed(
            p@,
            Seq::new(allow@.len(), |k: int| allow@[k]@),
        ),
{
    let ghost av = Seq::new(allow@.len(), |k: int| allow@[k]@);
    match extension_of(p) {
        None => false,
        Some(e) => {
            let le = to_ascii_lower(e.as_slice());
            let n = allow.len();
            let mut k: usize = 0;
            while k < n
                invariant
                    k <= n,
                    forall|j: int|
                        0 <= j < k ==> ascii_lower_seq(#[trigger] av[j]) != ascii_lower_seq(e@),
                decreases n - k,
            {
                let la = to_ascii_lower(allow[k].as_slice());
                if crate::text::bytes_eq(la.as_slice(), le.as_slice()) {
                    proof {
                        assert(ascii_lower_seq(av[k as int]) == ascii_lower_seq(e@));
                    }
                    return true;
                }
                k = k + 1;
            }
            false
        },
    }
}

/// The extension filter as a policy check, applied after sandbox
/// validation and independent of it: a rejection here is a policy
/// rejection, distinct from a sandbox violation.
pub fn extension_filter(p: &[u8], allow: &Vec<Vec<u8>>) -> (r: Result<(), crate::CoreError>)
    ensures
        r is Ok <==> spec_extension_allowed(
            p@,
            Seq::new(allow@.len(), |k: int| allow@[k]@),
        ),
        r is Err ==> r->Err_0 == crate::CoreError::PolicyRejected,
{
    if extension_allowed(p, allow) {
        Ok(())
    } else {
        Err(crate::CoreError::PolicyRejected)
    }
}

/// The error class of a failed verdict; an allowed path has none.
pub fn path_check_error(c: &PathCheck) -> (r: Option<crate::CoreError>)
    ensures
        *c == PathCheck::Allowed ==> r is None,
        *c == PathCheck::Violation ==> r == Some(crate::CoreError::SandboxViolation),
        *c == PathCheck::NotFound ==> r == Some(crate::CoreError::NotFound),
        *c == PathCheck::IoFailed ==> r == Some(crate::CoreError::Io),
{
    match c {
        PathCheck::Allowed => None,
        PathCheck::Violation => Some(crate::CoreError::SandboxViolation),
        PathCheck::NotFound => Some(crate::CoreError::NotFound),
        PathCheck::IoFailed => Some(crate::CoreError::Io),
    }
}

} // verus!
