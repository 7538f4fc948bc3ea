use vstd::prelude::*;
use crate::models::analysis::Analysis;
use crate::models::dataset::Dataset;
use crate::models::dataview::Dataview;
use crate::models::model::Model;
use crate::models::plot::Plot;
use crate::models::project::Project;
use crate::models::statistic::Statistic;
use crate::models::project_user_role::ProjectUserRole;
use crate::models::user_refresh_token::UserRefreshToken;
use crate::store::{contains_u64, lemma_filter_push};

verus! {

broadcast use vstd::seq_lib::group_seq_properties;

/// The survivor predicate used by `retain_datasets_outside`.
pub open spec fn dataset_outside(owners: Seq<u64>) -> spec_fn(Dataset) -> bool {
    |d: Dataset| !owners.contains(d.project_uuid)
}

/// The survivor predicate used by `retain_analyses_outside`.
pub open spec fn analysis_outside(owners: Seq<u64>) -> spec_fn(Analysis) -> bool {
    |a: Analysis| !owners.contains(a.dataset_uuid)
}

/// The survivor predicate used by `retain_dataviews_outside`.
pub open spec fn dataview_outside(owners: Seq<u64>) -> spec_fn(Dataview) -> bool {
    |d: Dataview| !owners.contains(d.analysis_uuid)
}

/// The survivor predicate used by `retain_dataviews_not_among`.
pub open spec fn dataview_not_among(ids: Seq<u64>) -> spec_fn(Dataview) -> bool {
    |d: Dataview| !ids.contains(d.uuid)
}

/// The survivor predicate used by `retain_plots_outside`.
pub open spec fn plot_outside(owners: Seq<u64>) -> spec_fn(Plot) -> bool {
    |p: Plot| !owners.contains(p.dataview_uuid)
}

/// The survivor predicate used by `retain_statistics_outside`.
pub open spec fn statistic_outside(owners: Seq<u64>) -> spec_fn(Statistic) -> bool {
    |p: Statistic| !owners.contains(p.dataview_uuid)
}

/// The survivor predicate used by `retain_models_outside`.
pub open spec fn model_outside(owners: Seq<u64>) -> spec_fn(Model) -> bool {
    |p: Model| !owners.contains(p.dataview_uuid)
}

/// The survivor predicate used by `retain_roles_outside`.
pub open spec fn role_outside(owners: Seq<u64>) -> spec_fn(ProjectUserRole) -> bool {
    |r: ProjectUserRole| !owners.contains(r.project_uuid)
}

/// The survivor predicate used by `retain_tokens_alive`.
pub open spec fn token_alive(now: u64) -> spec_fn(UserRefreshToken) -> bool {
    |t: UserRefreshToken| t.expires_at >= now
}

/// Keeps the rows that `dataset_outside` accepts, in order.
pub fn retain_datasets_outside(v: Vec<Dataset>, owners: &Vec<u64>) -> (r: Vec<Dataset>)
    ensures
        r@ == v@.filter(dataset_outside(owners@)),
{
    let ghost v0 = v@;
    let ghost pred = dataset_outside(owners@);
    let mut src = v;
    let mut out: Vec<Dataset> = Vec::new();
    proof {
        assert(v0.subrange(0, 0) =~= Seq::<Dataset>::empty());
        assert(Seq::<Dataset>::empty().filter(pred) =~= Seq::<Dataset>::empty()) by {
            reveal(Seq::filter);
        }
        assert(src@ =~= v0.subrange(v0.len() - src@.len(), v0.len() as int));
    }
    while src.len() > 0
        invariant
            src@.len() <= v0.len(),
            pred == dataset_outside(owners@),
            src@ =~= v0.subrange(v0.len() - src@.len(), v0.len() as int),
            out@ == v0.subrange(0, v0.len() - src@.len()).filter(pred),
        decreases src@.len(),
    {
        let ghost k = v0.len() - src@.len();
        let x = src.remove(0);
        proof {
            assert(x == v0[k]);
            assert(src@ =~= v0.subrange(k + 1, v0.len() as int));
        }
        let keep = !contains_u64(owners, x.project_uuid);
        proof {
            assert(keep == pred(x));
            assert(v0.subrange(0, k + 1) =~= v0.subrange(0, k).push(v0[k]));
            lemma_filter_push(v0.subrange(0, k), pred, v0[k]);
        }
        if keep {
            out.push(x);
        }
    }
    proof {
        assert(v0.subrange(0, v0.len() as int) =~= v0);
    }
    out
}

/// Keeps the rows that `analysis_outside` accepts, in order.
pub fn retain_analyses_outside(v: Vec<Analysis>, owners: &Vec<u64>) -> (r: Vec<Analysis>)
    ensures
        r@ == v@.filter(analysis_outside(owners@)),
{
    let ghost v0 = v@;
    let ghost pred = analysis_outside(owners@);
    let mut src = v;
    let mut out: Vec<Analysis> = Vec::new();
    proof {
        assert(v0.subrange(0, 0) =~= Seq::<Analysis>::empty());
        assert(Seq::<Analysis>::empty().filter(pred) =~= Seq::<Analysis>::empty()) by {
            reveal(Seq::filter);
        }
        assert(src@ =~= v0.subrange(v0.len() - src@.len(), v0.len() as int));
    }
    while src.len() > 0
        invariant
            src@.len() <= v0.len(),
            pred == analysis_outside(owners@),
            src@ =~= v0.subrange(v0.len() - src@.len(), v0.len() as int),
            out@ == v0.subrange(0, v0.len() - src@.len()).filter(pred),
        decreases src@.len(),
    {
        let ghost k = v0.len() - src@.len();
        let x = src.remove(0);
        proof {
            assert(x == v0[k]);
            assert(src@ =~= v0.subrange(k + 1, v0.len() as int));
        }
        let keep = !contains_u64(owners, x.dataset_uuid);
        proof {
            assert(keep == pred(x));
            assert(v0.subrange(0, k + 1) =~= v0.subrange(0, k).push(v0[k]));
            lemma_filter_push(v0.subrange(0, k), pred, v0[k]);
        }
        if keep {
            out.push(x);
        }
    }
    proof {
        assert(v0.subrange(0, v0.len() as int) =~= v0);
    }
    out
}

/// Keeps the rows that `dataview_outside` accepts, in order.
pub fn retain_dataviews_outside(v: Vec<Dataview>, owners: &Vec<u64>) -> (r: Vec<Dataview>)
    ensures
        r@ == v@.filter(dataview_outside(owners@)),
{
    let ghost v0 = v@;
    let ghost pred = dataview_outside(owners@);
    let mut src = v;
    let mut out: Vec<Dataview> = Vec::new();
    proof {
        assert(v0.subrange(0, 0) =~= Seq::<Dataview>::empty());
        assert(Seq::<Dataview>::empty().filter(pred) =~= Seq::<Dataview>::empty()) by {
            reveal(Seq::filter);
        }
        assert(src@ =~= v0.subrange(v0.len() - src@.len(), v0.len() as int));
    }
    while src.len() > 0
        invariant
            src@.len() <= v0.len(),
            pred == dataview_outside(owners@),
            src@ =~= v0.subrange(v0.len() - src@.len(), v0.len() as int),
            out@ == v0.subrange(0, v0.len() - src@.len()).filter(pred),
        decreases src@.len(),
    {
        let ghost k = v0.len() - src@.len();
        let x = src.remove(0);
        proof {
            assert(x == v0[k]);
            assert(src@ =~= v0.subrange(k + 1, v0.len() as int));
        }
        let keep = !contains_u64(owners, x.analysis_uuid);
        proof {
            assert(keep == pred(x));
            assert(v0.subrange(0, k + 1) =~= v0.subrange(0, k).push(v0[k]));
            lemma_filter_push(v0.subrange(0, k), pred, v0[k]);
        }
        if keep {
            out.push(x);
        }
    }
    proof {
        assert(v0.subrange(0, v0.len() as int) =~= v0);
    }
    out
}

/// Keeps the rows that `dataview_not_among` accepts, in order.
pub fn retain_dataviews_not_among(v: Vec<Dataview>, ids: &Vec<u64>) -> (r: Vec<Dataview>)
    ensures
        r@ == v@.filter(dataview_not_among(ids@)),
{
    let ghost v0 = v@;
    let ghost pred = dataview_not_among(ids@);
    let mut src = v;
    let mut out: Vec<Dataview> = Vec::new();
    proof {
        assert(v0.subrange(0, 0) =~= Seq::<Dataview>::empty());
        assert(Seq::<Dataview>::empty().filter(pred) =~= Seq::<Dataview>::empty()) by {
            reveal(Seq::filter);
        }
        assert(src@ =~= v0.subrange(v0.len() - src@.len(), v0.len() as int));
    }
    while src.len() > 0
        invariant
            src@.len() <= v0.len(),
            pred == dataview_not_among(ids@),
            src@ =~= v0.subrange(v0.len() - src@.len(), v0.len() as int),
            out@ == v0.subrange(0, v0.len() - src@.len()).filter(pred),
        decreases src@.len(),
    {
        let ghost k = v0.len() - src@.len();
        let x = src.remove(0);
        proof {
            assert(x == v0[k]);
            assert(src@ =~= v0.subrange(k + 1, v0.len() as int));
        }
        let keep = !contains_u64(ids, x.uuid);
        proof {
            assert(keep == pred(x));
            assert(v0.subrange(0, k + 1) =~= v0.subrange(0, k).push(v0[k]));
            lemma_filter_push(v0.subrange(0, k), pred, v0[k]);
        }
        if keep {
            out.push(x);
        }
    }
    proof {
        assert(v0.subrange(0, v0.len() as int) =~= v0);
    }
    out
}

/// Keeps the rows that `plot_outside` accepts, in order.
pub fn retain_plots_outside(v: Vec<Plot>, owners: &Vec<u64>) -> (r: Vec<Plot>)
    ensures
        r@ == v@.filter(plot_outside(owners@)),
{
    let ghost v0 = v@;
    let ghost pred = plot_outside(owners@);
    let mut src = v;
    let mut out: Vec<Plot> = Vec::new();
    proof {
        assert(v0.subrange(0, 0) =~= Seq::<Plot>::empty());
        assert(Seq::<Plot>::empty().filter(pred) =~= Seq::<Plot>::empty()) by {
            reveal(Seq::filter);
        }
        assert(src@ =~= v0.subrange(v0.len() - src@.len(), v0.len() as int));
    }
    while src.len() > 0
        invariant
            src@.len() <= v0.len(),
            pred == plot_outside(owners@),
            src@ =~= v0.subrange(v0.len() - src@.len(), v0.len() as int),
            out@ == v0.subrange(0, v0.len() - src@.len()).filter(pred),
        decreases src@.len(),
    {
        let ghost k = v0.len() - src@.len();
        let x = src.remove(0);
        proof {
            assert(x == v0[k]);
            assert(src@ =~= v0.subrange(k + 1, v0.len() as int));
        }
        let keep = !contains_u64(owners, x.dataview_uuid);
        proof {
            assert(keep == pred(x));
            assert(v0.subrange(0, k + 1) =~= v0.subrange(0, k).push(v0[k]));
            lemma_filter_push(v0.subrange(0, k), pred, v0[k]);
        }
        if keep {
            out.push(x);
        }
    }
    proof {
        assert(v0.subrange(0, v0.len() as int) =~= v0);
    }
    out
}

/// Keeps the rows that `statistic_outside` accepts, in order.
pub fn retain_statistics_outside(v: Vec<Statistic>, owners: &Vec<u64>) -> (r: Vec<Statistic>)
    ensures
        r@ == v@.filter(statistic_outside(owners@)),
{
    let ghost v0 = v@;
    let ghost pred = statistic_outside(owners@);
    let mut src = v;
    let mut out: Vec<Statistic> = Vec::new();
    proof {
        assert(v0.subrange(0, 0) =~= Seq::<Statistic>::empty());
        assert(Seq::<Statistic>::empty().filter(pred) =~= Seq::<Statistic>::empty()) by {
            reveal(Seq::filter);
        }
        assert(src@ =~= v0.subrange(v0.len() - src@.len(), v0.len() as int));
    }
    while src.len() > 0
        invariant
            src@.len() <= v0.len(),
            pred == statistic_outside(owners@),
            src@ =~= v0.subrange(v0.len() - src@.len(), v0.len() as int),
            out@ == v0.subrange(0, v0.len() - src@.len()).filter(pred),
        decreases src@.len(),
    {
        let ghost k = v0.len() - src@.len();
        let x = src.remove(0);
        proof {
            assert(x == v0[k]);
            assert(src@ =~= v0.subrange(k + 1, v0.len() as int));
        }
        let keep = !contains_u64(owners, x.dataview_uuid);
        proof {
            assert(keep == pred(x));
            assert(v0.subrange(0, k + 1) =~= v0.subrange(0, k).push(v0[k]));
            lemma_filter_push(v0.subrange(0, k), pred, v0[k]);
        }
        if keep {
            out.push(x);
        }
    }
    proof {
        assert(v0.subrange(0, v0.len() as int) =~= v0);
    }
    out
}

/// Keeps the rows that `model_outside` accepts, in order.
pub fn retain_models_outside(v: Vec<Model>, owners: &Vec<u64>) -> (r: Vec<Model>)
    ensures
        r@ == v@.filter(model_outside(owners@)),
{
    let ghost v0 = v@;
    let ghost pred = model_outside(owners@);
    let mut src = v;
    let mut out: Vec<Model> = Vec::new();
    proof {
        assert(v0.subrange(0, 0) =~= Seq::<Model>::empty());
        assert(Seq::<Model>::empty().filter(pred) =~= Seq::<Model>::empty()) by {
            reveal(Seq::filter);
        }
        assert(src@ =~= v0.subrange(v0.len() - src@.len(), v0.len() as int));
    }
    while src.len() > 0
        invariant
            src@.len() <= v0.len(),
            pred == model_outside(owners@),
            src@ =~= v0.subrange(v0.len() - src@.len(), v0.len() as int),
            out@ == v0.subrange(0, v0.len() - src@.len()).filter(pred),
        decreases src@.len(),
    {
        let ghost k = v0.len() - src@.len();
        let x = src.remove(0);
        proof {
            assert(x == v0[k]);
            assert(src@ =~= v0.subrange(k + 1, v0.len() as int));
        }
        let keep = !contains_u64(owners, x.dataview_uuid);
        proof {
            assert(keep == pred(x));
            assert(v0.subrange(0, k + 1) =~= v0.subrange(0, k).push(v0[k]));
            lemma_filter_push(v0.subrange(0, k), pred, v0[k]);
        }
        if keep {
            out.push(x);
        }
    }
    proof {
        assert(v0.subrange(0, v0.len() as int) =~= v0);
    }
    out
}

/// Keeps the rows that `role_outside` accepts, in order.
pub fn retain_roles_outside(v: Vec<ProjectUserRole>, owners: &Vec<u64>) -> (r: Vec<ProjectUserRole>)
    ensures
        r@ == v@.filter(role_outside(owners@)),
{
    let ghost v0 = v@;
    let ghost pred = role_outside(owners@);
    let mut src = v;
    let mut out: Vec<ProjectUserRole> = Vec::new();
    proof {
        assert(v0.subrange(0, 0) =~= Seq::<ProjectUserRole>::empty());
        assert(Seq::<ProjectUserRole>::empty().filter(pred) =~= Seq::<ProjectUserRole>::empty()) by {
            reveal(Seq::filter);
        }
        assert(src@ =~= v0.subrange(v0.len() - src@.len(), v0.len() as int));
    }
    while src.len() > 0
        invariant
            src@.len() <= v0.len(),
            pred == role_outside(owners@),
            src@ =~= v0.subrange(v0.len() - src@.len(), v0.len() as int),
            out@ == v0.subrange(0, v0.len() - src@.len()).filter(pred),
        decreases src@.len(),
    {
        let ghost k = v0.len() - src@.len();
        let x = src.remove(0);
        proof {
            assert(x == v0[k]);
            assert(src@ =~= v0.subrange(k + 1, v0.len() as int));
        }
        let keep = !contains_u64(owners, x.project_uuid);
        proof {
            assert(keep == pred(x));
            assert(v0.subrange(0, k + 1) =~= v0.subrange(0, k).push(v0[k]));
            lemma_filter_push(v0.subrange(0, k), pred, v0[k]);
        }
        if keep {
            out.push(x);
        }
    }
    proof {
        assert(v0.subrange(0, v0.len() as int) =~= v0);
    }
    out
}

/// Keeps the rows that `token_alive` accepts, in order.
pub fn retain_tokens_alive(v: Vec<UserRefreshToken>, now: u64) -> (r: Vec<UserRefreshToken>)
    ensures
        r@ == v@.filter(token_alive(now)),
{
    let ghost v0 = v@;
    let ghost pred = token_alive(now);
    let mut src = v;
    let mut out: Vec<UserRefreshToken> = Vec::new();
    proof {
        assert(v0.subrange(0, 0) =~= Seq::<UserRefreshToken>::empty());
        assert(Seq::<UserRefreshToken>::empty().filter(pred) =~= Seq::<UserRefreshToken>::empty()) by {
            reveal(Seq::filter);
        }
        assert(src@ =~= v0.subrange(v0.len() - src@.len(), v0.len() as int));
    }
    while src.len() > 0
        invariant
            src@.len() <= v0.len(),
            pred == token_alive(now),
            src@ =~= v0.subrange(v0.len() - src@.len(), v0.len() as int),
            out@ == v0.subrange(0, v0.len() - src@.len()).filter(pred),
        decreases src@.len(),
    {
        let ghost k = v0.len() - src@.len();
        let x = src.remove(0);
        proof {
            assert(x == v0[k]);
            assert(src@ =~= v0.subrange(k + 1, v0.len() as int));
        }
        let keep = x.expires_at >= now;
        proof {
            assert(keep == pred(x));
            assert(v0.subrange(0, k + 1) =~= v0.subrange(0, k).push(v0[k]));
            lemma_filter_push(v0.subrange(0, k), pred, v0[k]);
        }
        if keep {
            out.push(x);
        }
    }
    proof {
        assert(v0.subrange(0, v0.len() as int) =~= v0);
    }
    out
}

/// The identifiers of the datasets owned by any of the given projects.
pub fn collect_datasets_of_projects(v: &Vec<Dataset>, owners: &Vec<u64>) -> (r: Vec<u64>)
    ensures
        forall|id: u64| #[trigger] r@.contains(id) <==> (exists|j: int|
            0 <= j < v@.len() && (#[trigger] v@[j].uuid) == id && owners@.contains(
                v@[j].project_uuid,
            )),
{
    let mut out: Vec<u64> = Vec::new();
    let mut i: usize = 0;
    while i < v.len()
        invariant
            i <= v@.len(),
            forall|id: u64| #[trigger] out@.contains(id) <==> (exists|j: int|
                0 <= j < i && (#[trigger] v@[j].uuid) == id && owners@.contains(
                    v@[j].project_uuid,
                )),
        decreases v@.len() - i,
    {
        if contains_u64(owners, v[i].project_uuid) {
            out.push(v[i].uuid);
        }
        i = i + 1;
    }
    out
}

/// The identifiers of the analyses owned by any of the given datasets.
pub fn collect_analyses_of_datasets(v: &Vec<Analysis>, owners: &Vec<u64>) -> (r: Vec<u64>)
    ensures
        forall|id: u64| #[trigger] r@.contains(id) <==> (exists|j: int|
            0 <= j < v@.len() && (#[trigger] v@[j].uuid) == id && owners@.contains(
                v@[j].dataset_uuid,
            )),
{
    let mut out: Vec<u64> = Vec::new();
    let mut i: usize = 0;
    while i < v.len()
        invariant
            i <= v@.len(),
            forall|id: u64| #[trigger] out@.contains(id) <==> (exists|j: int|
                0 <= j < i && (#[trigger] v@[j].uuid) == id && owners@.contains(
                    v@[j].dataset_uuid,
                )),
        decreases v@.len() - i,
    {
        if contains_u64(owners, v[i].dataset_uuid) {
            out.push(v[i].uuid);
        }
        i = i + 1;
    }
    out
}

/// The identifiers of the dataviews owned by any of the given analyses.
pub fn collect_dataviews_of_analyses(v: &Vec<Dataview>, owners: &Vec<u64>) -> (r: Vec<u64>)
    ensures
        forall|id: u64| #[trigger] r@.contains(id) <==> (exists|j: int|
            0 <= j < v@.len() && (#[trigger] v@[j].uuid) == id && owners@.contains(
                v@[j].analysis_uuid,
            )),
{
    let mut out: Vec<u64> = Vec::new();
    let mut i: usize = 0;
    while i < v.len()
        invariant
            i <= v@.len(),
            forall|id: u64| #[trigger] out@.contains(id) <==> (exists|j: int|
                0 <= j < i && (#[trigger] v@[j].uuid) == id && owners@.contains(
                    v@[j].analysis_uuid,
                )),
        decreases v@.len() - i,
    {
        if contains_u64(owners, v[i].analysis_uuid) {
            out.push(v[i].uuid);
        }
        i = i + 1;
    }
    out
}


/// The survivor predicate used by `retain_projects_not_among`.
pub open spec fn project_not_among(ids: Seq<u64>) -> spec_fn(Project) -> bool {
    |p: Project| !ids.contains(p.uuid)
}

/// Keeps the rows that `project_not_among` accepts, in order.
pub fn retain_projects_not_among(v: Vec<Project>, ids: &Vec<u64>) -> (r: Vec<Project>)
    ensures
        r@ == v@.filter(project_not_among(ids@)),
{
    let ghost v0 = v@;
    let ghost pred = project_not_among(ids@);
    let mut src = v;
    let mut out: Vec<Project> = Vec::new();
    proof {
        assert(v0.subrange(0, 0) =~= Seq::<Project>::empty());
        assert(Seq::<Project>::empty().filter(pred) =~= Seq::<Project>::empty()) by {
            reveal(Seq::filter);
        }
        assert(src@ =~= v0.subrange(v0.len() - src@.len(), v0.len() as int));
    }
    while src.len() > 0
        invariant
            src@.len() <= v0.len(),
            pred == project_not_among(ids@),
            src@ =~= v0.subrange(v0.len() - src@.len(), v0.len() as int),
            out@ == v0.subrange(0, v0.len() - src@.len()).filter(pred),
        decreases src@.len(),
    {
        let ghost k = v0.len() - src@.len();
        let x = src.remove(0);
        proof {
            assert(x == v0[k]);
            assert(src@ =~= v0.subrange(k + 1, v0.len() as int));
        }
        let keep = !contains_u64(ids, x.uuid);
        proof {
            assert(keep == pred(x));
            assert(v0.subrange(0, k + 1) =~= v0.subrange(0, k).push(v0[k]));
            lemma_filter_push(v0.subrange(0, k), pred, v0[k]);
        }
        if keep {
            out.push(x);
        }
    }
    proof {
        assert(v0.subrange(0, v0.len() as int) =~= v0);
    }
    out
}


/// The survivor predicate used by `retain_datasets_not_among`.
pub open spec fn dataset_not_among(ids: Seq<u64>) -> spec_fn(Dataset) -> bool {
    |x: Dataset| !ids.contains(x.uuid)
}

/// Keeps the rows that `dataset_not_among` accepts, in order.
pub fn retain_datasets_not_among(v: Vec<Dataset>, ids: &Vec<u64>) -> (r: Vec<Dataset>)
    ensures
        r@ == v@.filter(dataset_not_among(ids@)),
{
    let ghost v0 = v@;
    let ghost pred = dataset_not_among(ids@);
    let mut src = v;
    let mut out: Vec<Dataset> = Vec::new();
    proof {
        assert(v0.subrange(0, 0) =~= Seq::<Dataset>::empty());
        assert(Seq::<Dataset>::empty().filter(pred) =~= Seq::<Dataset>::empty()) by {
            reveal(Seq::filter);
        }
        assert(src@ =~= v0.subrange(v0.len() - src@.len(), v0.len() as int));
    }
    while src.len() > 0
        invariant
            src@.len() <= v0.len(),
            pred == dataset_not_among(ids@),
            src@ =~= v0.subrange(v0.len() - src@.len(), v0.len() as int),
            out@ == v0.subrange(0, v0.len() - src@.len()).filter(pred),
        decreases src@.len(),
    {
        let ghost k = v0.len() - src@.len();
        let x = src.remove(0);
        proof {
            assert(x == v0[k]);
            assert(src@ =~= v0.subrange(k + 1, v0.len() as int));
        }
        let keep = !contains_u64(ids, x.uuid);
        proof {
            assert(keep == pred(x));
            assert(v0.subrange(0, k + 1) =~= v0.subrange(0, k).push(v0[k]));
            lemma_filter_push(v0.subrange(0, k), pred, v0[k]);
        }
        if keep {
            out.push(x);
        }
    }
    proof {
        assert(v0.subrange(0, v0.len() as int) =~= v0);
    }
    out
}

/// The survivor predicate used by `retain_analyses_not_among`.
pub open spec fn analysis_not_among(ids: Seq<u64>) -> spec_fn(Analysis) -> bool {
    |x: Analysis| !ids.contains(x.uuid)
}

/// Keeps the rows that `analysis_not_among` accepts, in order.
pub fn retain_analyses_not_among(v: Vec<Analysis>, ids: &Vec<u64>) -> (r: Vec<Analysis>)
    ensures
        r@ == v@.filter(analysis_not_among(ids@)),
{
    let ghost v0 = v@;
    let ghost pred = analysis_not_among(ids@);
    let mut src = v;
    let mut out: Vec<Analysis> = Vec::new();
    proof {
        assert(v0.subrange(0, 0) =~= Seq::<Analysis>::empty());
        assert(Seq::<Analysis>::empty().filter(pred) =~= Seq::<Analysis>::empty()) by {
            reveal(Seq::filter);
        }
        assert(src@ =~= v0.subrange(v0.len() - src@.len(), v0.len() as int));
    }
    while src.len() > 0
        invariant
            src@.len() <= v0.len(),
            pred == analysis_not_among(ids@),
            src@ =~= v0.subrange(v0.len() - src@.len(), v0.len() as int),
            out@ == v0.subrange(0, v0.len() - src@.len()).filter(pred),
        decreases src@.len(),
    {
        let ghost k = v0.len() - src@.len();
        let x = src.remove(0);
        proof {
            assert(x == v0[k]);
            assert(src@ =~= v0.subrange(k + 1, v0.len() as int));
        }
        let keep = !contains_u64(ids, x.uuid);
        proof {
            assert(keep == pred(x));
            assert(v0.subrange(0, k + 1) =~= v0.subrange(0, k).push(v0[k]));
            lemma_filter_push(v0.subrange(0, k), pred, v0[k]);
        }
        if keep {
            out.push(x);
        }
    }
    proof {
        assert(v0.subrange(0, v0.len() as int) =~= v0);
    }
    out
}

/// The survivor predicate used by `retain_plots_not_among`.
pub open spec fn plot_not_among(ids: Seq<u64>) -> spec_fn(Plot) -> bool {
    |x: Plot| !ids.contains(x.uuid)
}

/// Keeps the rows that `plot_not_among` accepts, in order.
pub fn retain_plots_not_among(v: Vec<Plot>, ids: &Vec<u64>) -> (r: Vec<Plot>)
    ensures
        r@ == v@.filter(plot_not_among(ids@)),
{
    let ghost v0 = v@;
    let ghost pred = plot_not_among(ids@);
    let mut src = v;
    let mut out: Vec<Plot> = Vec::new();
    proof {
        assert(v0.subrange(0, 0) =~= Seq::<Plot>::empty());
        assert(Seq::<Plot>::empty().filter(pred) =~= Seq::<Plot>::empty()) by {
            reveal(Seq::filter);
        }
        assert(src@ =~= v0.subrange(v0.len() - src@.len(), v0.len() as int));
    }
    while src.len() > 0
        invariant
            src@.len() <= v0.len(),
            pred == plot_not_among(ids@),
            src@ =~= v0.subrange(v0.len() - src@.len(), v0.len() as int),
            out@ == v0.subrange(0, v0.len() - src@.len()).filter(pred),
        decreases src@.len(),
    {
        let ghost k = v0.len() - src@.len();
        let x = src.remove(0);
        proof {
            assert(x == v0[k]);
            assert(src@ =~= v0.subrange(k + 1, v0.len() as int));
        }
        let keep = !contains_u64(ids, x.uuid);
        proof {
            assert(keep == pred(x));
            assert(v0.subrange(0, k + 1) =~= v0.subrange(0, k).push(v0[k]));
            lemma_filter_push(v0.subrange(0, k), pred, v0[k]);
        }
        if keep {
            out.push(x);
        }
    }
    proof {
        assert(v0.subrange(0, v0.len() as int) =~= v0);
    }
    out
}

/// The survivor predicate used by `retain_statistics_not_among`.
pub open spec fn statistic_not_among(ids: Seq<u64>) -> spec_fn(Statistic) -> bool {
    |x: Statistic| !ids.contains(x.uuid)
}

/// Keeps the rows that `statistic_not_among` accepts, in order.
pub fn retain_statistics_not_among(v: Vec<Statistic>, ids: &Vec<u64>) -> (r: Vec<Statistic>)
    ensures
        r@ == v@.filter(statistic_not_among(ids@)),
{
    let ghost v0 = v@;
    let ghost pred = statistic_not_among(ids@);
    let mut src = v;
    let mut out: Vec<Statistic> = Vec::new();
    proof {
        assert(v0.subrange(0, 0) =~= Seq::<Statistic>::empty());
        assert(Seq::<Statistic>::empty().filter(pred) =~= Seq::<Statistic>::empty()) by {
            reveal(Seq::filter);
        }
        assert(src@ =~= v0.subrange(v0.len() - src@.len(), v0.len() as int));
    }
    while src.len() > 0
        invariant
            src@.len() <= v0.len(),
            pred == statistic_not_among(ids@),
            src@ =~= v0.subrange(v0.len() - src@.len(), v0.len() as int),
            out@ == v0.subrange(0, v0.len() - src@.len()).filter(pred),
        decreases src@.len(),
    {
        let ghost k = v0.len() - src@.len();
        let x = src.remove(0);
        proof {
            assert(x == v0[k]);
            assert(src@ =~= v0.subrange(k + 1, v0.len() as int));
        }
        let keep = !contains_u64(ids, x.uuid);
        proof {
            assert(keep == pred(x));
            assert(v0.subrange(0, k + 1) =~= v0.subrange(0, k).push(v0[k]));
            lemma_filter_push(v0.subrange(0, k), pred, v0[k]);
        }
        if keep {
            out.push(x);
        }
    }
    proof {
        assert(v0.subrange(0, v0.len() as int) =~= v0);
    }
    out
}

/// The survivor predicate used by `retain_models_not_among`.
pub open spec fn model_not_among(ids: Seq<u64>) -> spec_fn(Model) -> bool {
    |x: Model| !ids.contains(x.uuid)
}

/// Keeps the rows that `model_not_among` accepts, in order.
pub fn retain_models_not_among(v: Vec<Model>, ids: &Vec<u64>) -> (r: Vec<Model>)
    ensures
        r@ == v@.filter(model_not_among(ids@)),
{
    let ghost v0 = v@;
    let ghost pred = model_not_among(ids@);
    let mut src = v;
    let mut out: Vec<Model> = Vec::new();
    proof {
        assert(v0.subrange(0, 0) =~= Seq::<Model>::empty());
        assert(Seq::<Model>::empty().filter(pred) =~= Seq::<Model>::empty()) by {
            reveal(Seq::filter);
        }
        assert(src@ =~= v0.subrange(v0.len() - src@.len(), v0.len() as int));
    }
    while src.len() > 0
        invariant
            src@.len() <= v0.len(),
            pred == model_not_among(ids@),
            src@ =~= v0.subrange(v0.len() - src@.len(), v0.len() as int),
            out@ == v0.subrange(0, v0.len() - src@.len()).filter(pred),
        decreases src@.len(),
    {
        let ghost k = v0.len() - src@.len();
        let x = src.remove(0);
        proof {
            assert(x == v0[k]);
            assert(src@ =~= v0.subrange(k + 1, v0.len() as int));
        }
        let keep = !contains_u64(ids, x.uuid);
        proof {
            assert(keep == pred(x));
            assert(v0.subrange(0, k + 1) =~= v0.subrange(0, k).push(v0[k]));
            lemma_filter_push(v0.subrange(0, k), pred, v0[k]);
        }
        if keep {
            out.push(x);
        }
    }
    proof {
        assert(v0.subrange(0, v0.len() as int) =~= v0);
    }
    out
}

/// The survivor predicate used by `retain_roles_not_pair`.
pub open spec fn role_not_pair(project: u64, user: u64) -> spec_fn(ProjectUserRole) -> bool {
    |x: ProjectUserRole| !(x.project_uuid == project && x.user_uuid == user)
}

/// Keeps every role row but the one for the given project and user.
pub fn retain_roles_not_pair(v: Vec<ProjectUserRole>, project: u64, user: u64) -> (r: Vec<
    ProjectUserRole,
>)
    ensures
        r@ == v@.filter(role_not_pair(project, user)),
{
    let ghost v0 = v@;
    let ghost pred = role_not_pair(project, user);
    let mut src = v;
    let mut out: Vec<ProjectUserRole> = Vec::new();
    proof {
        assert(v0.subrange(0, 0) =~= Seq::<ProjectUserRole>::empty());
        assert(Seq::<ProjectUserRole>::empty().filter(pred) =~= Seq::<ProjectUserRole>::empty())
            by {
            reveal(Seq::filter);
        }
        assert(src@ =~= v0.subrange(v0.len() - src@.len(), v0.len() as int));
    }
    while src.len() > 0
        invariant
            src@.len() <= v0.len(),
            pred == role_not_pair(project, user),
            src@ =~= v0.subrange(v0.len() - src@.len(), v0.len() as int),
            out@ == v0.subrange(0, v0.len() - src@.len()).filter(pred),
        decreases src@.len(),
    {
        let ghost k = v0.len() - src@.len();
        let x = src.remove(0);
        proof {
            assert(x == v0[k]);
            assert(src@ =~= v0.subrange(k + 1, v0.len() as int));
        }
        let keep = !(x.project_uuid == project && x.user_uuid == user);
        proof {
            assert(keep == pred(x));
            assert(v0.subrange(0, k + 1) =~= v0.subrange(0, k).push(v0[k]));
            lemma_filter_push(v0.subrange(0, k), pred, v0[k]);
        }
        if keep {
            out.push(x);
        }
    }
    proof {
        assert(v0.subrange(0, v0.len() as int) =~= v0);
    }
    out
}

} // verus!
