//! Transformations between modules, and pipelines that chain them.
use vstd::prelude::*;

use crate::errors::{CompileError, CompileErrorModel};
use crate::ir::{module_result, reversed, Module, ModuleModel};
use crate::transforms::bbf_opt::{merge_run, BBFOptMerge, MergeModel};
use crate::transforms::bbf_to_bf::{bbf_to_bf_run, BBFToBF};
use crate::transforms::bf_to_bbf::{bf_to_bbf_run, BFToBBF};
use crate::transforms::simp_to_bf::{simp_to_bf_run, SimpState, SimpToBrainfuck};

verus! {

/// What a run gives: `None` where it aborts, else the transformation's state after
/// it and the module or the error that it ends in.
pub type RunOutcome<V> = Option<(V, Result<ModuleModel, CompileErrorModel>)>;

/// Whether an executed run matches its outcome.
pub open spec fn run_matches<V>(
    outcome: RunOutcome<V>,
    r: Option<Result<Module, CompileError>>,
    after: V,
) -> bool {
    match outcome {
        None => r is None,
        Some((st, res)) => r matches Some(x) && module_result(x) == res && after == st,
    }
}

/// A step of compilation from a module to another, with a state of its own that a
/// run may change.
pub trait Transformation: View + Sized {
    /// What one run on `m` gives, from the state `st`.
    spec fn run_spec(st: Self::V, m: ModuleModel) -> RunOutcome<Self::V>;

    /// The name of the transformation.
    fn name(&self) -> (r: &str);

    /// One run on `module`; `None` on the modules on which the transformation aborts.
    fn try_run(&mut self, module: Module) -> (r: Option<Result<Module, CompileError>>)
        ensures
            run_matches(Self::run_spec(old(self)@, module@), r, final(self)@),
    ;

    /// One run on `module`, which must be one on which the transformation does not
    /// abort.
    fn run(&mut self, module: Module) -> (r: Result<Module, CompileError>)
        requires
            Self::run_spec(old(self)@, module@) is Some,
        ensures
            Self::run_spec(old(self)@, module@) == Some((final(self)@, module_result(r))),
    {
        match self.try_run(module) {
            Some(r) => r,
            None => vstd::pervasive::unreached(),
        }
    }
}

// # Passes

/// One of the transformations of this library, as a stage of a pipeline.
pub enum Pass {
    SimpToBrainfuck(SimpToBrainfuck),
    BFToBBF(BFToBBF),
    BBFOptMerge(BBFOptMerge),
    BBFToBF(BBFToBF),
}

/// Mathematical model of a [`Pass`]: which transformation, with its state.
pub enum PassModel {
    SimpToBrainfuck(SimpState),
    BFToBBF,
    BBFOptMerge(MergeModel),
    BBFToBF,
}

impl View for Pass {
    type V = PassModel;

    open spec fn view(&self) -> PassModel {
        match self {
            Pass::SimpToBrainfuck(t) => PassModel::SimpToBrainfuck(t@),
            Pass::BFToBBF(_) => PassModel::BFToBBF,
            Pass::BBFOptMerge(t) => PassModel::BBFOptMerge(t@),
            Pass::BBFToBF(_) => PassModel::BBFToBF,
        }
    }
}

/// A run of a pass: that of its transformation.
pub open spec fn pass_run(p: PassModel, m: ModuleModel) -> RunOutcome<PassModel> {
    match p {
        PassModel::SimpToBrainfuck(st) => match simp_to_bf_run(st, m) {
            None => None,
            Some((st2, r)) => Some((PassModel::SimpToBrainfuck(st2), r)),
        },
        PassModel::BFToBBF => match bf_to_bbf_run(m) {
            None => None,
            Some((_, r)) => Some((PassModel::BFToBBF, r)),
        },
        PassModel::BBFOptMerge(st) => match merge_run(st, m) {
            None => None,
            Some((st2, r)) => Some((PassModel::BBFOptMerge(st2), r)),
        },
        PassModel::BBFToBF => match bbf_to_bf_run(m) {
            None => None,
            Some((_, r)) => Some((PassModel::BBFToBF, r)),
        },
    }
}

impl Transformation for Pass {
    open spec fn run_spec(st: PassModel, m: ModuleModel) -> RunOutcome<PassModel> {
        pass_run(st, m)
    }

    fn name(&self) -> (r: &str)
        ensures
            r@ == match self@ {
                PassModel::SimpToBrainfuck(_) => "simp-brainfuck"@,
                PassModel::BFToBBF => "bf-to-bbf"@,
                PassModel::BBFOptMerge(st) => st.name,
                PassModel::BBFToBF => "bbf-to-bf"@,
            },
    {
        match self {
            Pass::SimpToBrainfuck(t) => t.name(),
            Pass::BFToBBF(t) => t.name(),
            Pass::BBFOptMerge(t) => t.name(),
            Pass::BBFToBF(t) => t.name(),
        }
    }

    fn try_run(&mut self, module: Module) -> (r: Option<Result<Module, CompileError>>) {
        match self {
            Pass::SimpToBrainfuck(t) => t.try_run(module),
            Pass::BFToBBF(t) => t.try_run(module),
            Pass::BBFOptMerge(t) => t.try_run(module),
            Pass::BBFToBF(t) => t.try_run(module),
        }
    }
}

// # Pipelines

/// Transformations run one after the other, each on the module that the one before
/// gave.
pub struct Pipeline {
    transformations: Vec<Pass>,
}

/// The models of some passes.
pub open spec fn passes_model(s: Seq<Pass>) -> Seq<PassModel> {
    s.map_values(|p: Pass| p@)
}

impl View for Pipeline {
    type V = Seq<PassModel>;

    closed spec fn view(&self) -> Seq<PassModel> {
        passes_model(self.transformations@)
    }
}

/// What the first `k` passes give, run in order from `m`: the passes with the states
/// they end in, and the last module or the first error, after which no pass runs;
/// `None` where a pass aborts.
pub open spec fn run_first(passes: Seq<PassModel>, m: ModuleModel, k: nat) -> RunOutcome<Seq<PassModel>>
    decreases k,
{
    if k == 0 {
        Some((passes, Ok(m)))
    } else {
        match run_first(passes, m, (k - 1) as nat) {
            None => None,
            Some((ps, Err(e))) => Some((ps, Err(e))),
            Some((ps, Ok(mk))) => match pass_run(ps[k - 1], mk) {
                None => None,
                Some((p, r)) => Some((ps.update(k - 1, p), r)),
            },
        }
    }
}

/// What a pipeline of `passes` gives, run from `m`.
pub open spec fn pipeline_run(passes: Seq<PassModel>, m: ModuleModel) -> RunOutcome<Seq<PassModel>> {
    run_first(passes, m, passes.len())
}

/// Whether a run of `passes` from `m` aborts at pass `k`: the passes before it gave a
/// module, on which that pass aborts.
pub open spec fn aborts_at(passes: Seq<PassModel>, m: ModuleModel, k: nat) -> bool {
    &&& k < passes.len()
    &&& run_first(passes, m, k) matches Some((ps, Ok(mk)))
    &&& pass_run(ps[k as int], mk) is None
}

/// Whether, after a run that aborts at pass `k`, a pipeline keeps all its passes:
/// those before `k` in the states that the run left them in, and those after `k` as
/// they were.
pub open spec fn kept_after_abort(passes: Seq<PassModel>, m: ModuleModel, k: nat, after: Seq<PassModel>) -> bool {
    &&& after.len() == passes.len()
    &&& forall|j: int|
        0 <= j < passes.len() && j != k ==> after[j] == (run_first(passes, m, k)->0).0[j]
}

/// Once a run has stopped, by an error or an abort, later passes change nothing.
proof fn lemma_run_stops(passes: Seq<PassModel>, m: ModuleModel, j: nat, k: nat)
    requires
        j <= k,
        !(run_first(passes, m, j) matches Some((_, Ok(_)))),
    ensures
        run_first(passes, m, k) == run_first(passes, m, j),
    decreases k,
{
    if j < k {
        lemma_run_stops(passes, m, j, (k - 1) as nat);
    }
}

/// A run keeps the number of passes.
proof fn lemma_run_first_len(passes: Seq<PassModel>, m: ModuleModel, k: nat)
    requires
        k <= passes.len(),
    ensures
        run_first(passes, m, k) matches Some((ps, _)) ==> ps.len() == passes.len(),
    decreases k,
{
    if k > 0 {
        lemma_run_first_len(passes, m, (k - 1) as nat);
    }
}

/// Running the first `k` passes does not look at the passes after them.
proof fn lemma_run_first_push(passes: Seq<PassModel>, p: PassModel, m: ModuleModel, k: nat)
    requires
        k <= passes.len(),
    ensures
        run_first(passes.push(p), m, k) == match run_first(passes, m, k) {
            None => None,
            Some((ps, r)) => Some((ps.push(p), r)),
        },
    decreases k,
{
    if k > 0 {
        lemma_run_first_push(passes, p, m, (k - 1) as nat);
        lemma_run_first_len(passes, m, (k - 1) as nat);
        if let Some((ps, Ok(mk))) = run_first(passes, m, (k - 1) as nat) {
            assert(ps.push(p)[k - 1] == ps[k - 1]);
            if let Some((q, r)) = pass_run(ps[k - 1], mk) {
                assert(ps.push(p).update(k - 1, q) =~= ps.update(k - 1, q).push(p));
            }
        }
    }
}

/// Law: an empty pipeline gives back the module it is run on.
pub proof fn law_empty_pipeline_is_identity(m: ModuleModel)
    ensures
        pipeline_run(Seq::empty(), m) == Some((Seq::<PassModel>::empty(), Ok::<ModuleModel, CompileErrorModel>(m))),
{
}

/// Law: a transformation added at the end of a pipeline runs after the others, on the
/// module that they give; where they end in an error or an abort it does not run.
pub proof fn law_added_transformation_runs_last(passes: Seq<PassModel>, p: PassModel, m: ModuleModel)
    ensures
        pipeline_run(passes.push(p), m) == match pipeline_run(passes, m) {
            None => None,
            Some((ps, Err(e))) => Some((ps.push(p), Err(e))),
            Some((ps, Ok(m2))) => match pass_run(p, m2) {
                None => None,
                Some((p2, r)) => Some((ps.push(p2), r)),
            },
        },
{
    let n = passes.len();
    lemma_run_first_push(passes, p, m, n);
    lemma_run_first_len(passes, m, n);
    if let Some((ps, Ok(m2))) = pipeline_run(passes, m) {
        assert(ps.push(p)[n as int] == p);
        if let Some((p2, r)) = pass_run(p, m2) {
            assert(ps.push(p).update(n as int, p2) =~= ps.push(p2));
        }
    }
}

impl Pipeline {
    /// A pipeline without transformations.
    pub fn new() -> (r: Self)
        ensures
            r@ == Seq::<PassModel>::empty(),
    {
        let r = Pipeline { transformations: Vec::new() };
        assert(r@ =~= Seq::<PassModel>::empty());
        r
    }

    /// A pipeline of the given transformations, in order.
    pub fn from_transformations(transformations: Vec<Pass>) -> (r: Self)
        ensures
            r@ == passes_model(transformations@),
    {
        Pipeline { transformations }
    }

    /// The number of transformations.
    pub fn len(&self) -> (r: usize)
        ensures
            r == self@.len(),
    {
        self.transformations.len()
    }

    /// Adds a transformation at the end.
    pub fn add_transformation(&mut self, transformation: Pass)
        ensures
            final(self)@ == old(self)@.push(transformation@),
    {
        let ghost before = self.transformations@;
        self.transformations.push(transformation);
        assert(passes_model(self.transformations@) =~= passes_model(before).push(transformation@));
    }

    /// Runs the transformations in order on `module`, stopping at the first error;
    /// `None` where one of them aborts.
    pub fn try_run(&mut self, module: Module) -> (r: Option<Result<Module, CompileError>>)
        ensures
            run_matches(pipeline_run(old(self)@, module@), r, final(self)@),
            pipeline_run(old(self)@, module@) is None ==> exists|k: nat|
                #[trigger] aborts_at(old(self)@, module@, k) && kept_after_abort(
                    old(self)@,
                    module@,
                    k,
                    final(self)@,
                ),
    {
        let mut passes: Vec<Pass> = Vec::new();
        std::mem::swap(&mut passes, &mut self.transformations);
        let ghost all = passes_model(passes@);
        let ghost m = module@;
        let n = passes.len();
        let mut rest = reversed(passes);
        let mut done: Vec<Pass> = Vec::new();
        let mut current = module;
        let mut k: usize = 0;
        assert(all.skip(0) =~= all);
        assert(passes_model(done@) + all.skip(0) =~= all);
        while k < n
            invariant
                k <= n,
                n == all.len(),
                all == old(self)@,
                m == module@,
                done@.len() == k,
                rest@.len() == n - k,
                passes_model(rest@) == all.skip(k as int).reverse(),
                run_first(all, m, k as nat) == Some((passes_model(done@) + all.skip(k as int), Ok::<ModuleModel, CompileErrorModel>(current@))),
            decreases n - k,
        {
            let ghost ps = passes_model(done@) + all.skip(k as int);
            let ghost before_rest = rest@;
            let mut p = rest.pop().unwrap();
            assert(before_rest =~= rest@.push(p));
            assert(p@ == passes_model(before_rest)[(n - k - 1) as int]);
            assert(p@ == all[k as int]);
            assert(ps[k as int] == all[k as int]);
            assert forall|i: int| 0 <= i < rest@.len() implies passes_model(rest@)[i] == all.skip(
                k + 1,
            ).reverse()[i] by {
                assert(passes_model(before_rest)[i] == rest@[i]@);
            }
            assert(passes_model(rest@) =~= all.skip(k + 1).reverse());
            let ghost before_done = done@;
            match p.try_run(current) {
                Some(Ok(next)) => {
                    done.push(p);
                    assert(passes_model(done@) + all.skip(k + 1) =~= ps.update(k as int, p@));
                    current = next;
                },
                Some(Err(e)) => {
                    done.push(p);
                    assert(passes_model(done@) + all.skip(k + 1) =~= ps.update(k as int, p@));
                    let ghost rest_model = passes_model(rest@);
                    let mut tail = reversed(rest);
                    assert(passes_model(tail@) =~= rest_model.reverse());
                    assert(rest_model.reverse() =~= all.skip(k + 1));
                    let ghost before_tail = done@;
                    done.append(&mut tail);
                    assert(passes_model(done@) =~= passes_model(before_tail) + all.skip(k + 1));
                    proof {
                        lemma_run_stops(all, m, (k + 1) as nat, n as nat);
                    }
                    self.transformations = done;
                    return Some(Err(e));
                },
                None => {
                    proof {
                        lemma_run_stops(all, m, (k + 1) as nat, n as nat);
                    }
                    let ghost before_done = passes_model(done@);
                    done.push(p);
                    let ghost rest_model = passes_model(rest@);
                    let mut tail = reversed(rest);
                    assert(passes_model(tail@) =~= rest_model.reverse());
                    assert(rest_model.reverse() =~= all.skip(k + 1));
                    done.append(&mut tail);
                    self.transformations = done;
                    proof {
                        let fin = passes_model(self.transformations@);
                        assert(fin.len() == all.len());
                        assert forall|j: int| 0 <= j < all.len() && j != k implies fin[j] == ps[j] by {
                            if j < k {
                                assert(fin[j] == before_done[j]);
                            } else {
                                assert(fin[j] == all.skip(k + 1)[j - k - 1]);
                            }
                        }
                        assert(aborts_at(all, m, k as nat));
                        assert(kept_after_abort(all, m, k as nat, fin));
                    }
                    return None;
                },
            }
            k = k + 1;
        }
        assert(all.skip(n as int) =~= Seq::<PassModel>::empty());
        assert(passes_model(done@) + all.skip(n as int) =~= passes_model(done@));
        self.transformations = done;
        Some(Ok(current))
    }

    /// Runs the transformations in order on `module`, which must be one on which
    /// none of them aborts, stopping at the first error.
    pub fn run(&mut self, module: Module) -> (r: Result<Module, CompileError>)
        requires
            pipeline_run(old(self)@, module@) is Some,
        ensures
            pipeline_run(old(self)@, module@) == Some((final(self)@, module_result(r))),
    {
        match self.try_run(module) {
            Some(r) => r,
            None => vstd::pervasive::unreached(),
        }
    }
}

} // verus!
