//! What the steps of a plan took.

use vstd::prelude::*;

verus! {

/// What is measured of a processor.
#[derive(Debug)]
pub struct Profile {
    pub plan_id: Option<u32>,
    pub plan_name: Option<String>,
    pub plan_parent_id: Option<u32>,
    pub title: String,
    /// The labels, by the number under which they are kept.
    pub labels: u64,
    pub statistics: Vec<usize>,
}

/// What is measured of a step of a plan.
#[derive(Debug)]
pub struct PlanProfile {
    pub id: Option<u32>,
    pub name: Option<String>,
    pub parent_id: Option<u32>,
    pub title: String,
    /// The labels, by the number under which they are kept.
    pub labels: u64,
    pub statistics: Vec<usize>,
}

pub struct PlanProfileView {
    pub id: Option<u32>,
    pub name: Option<Seq<char>>,
    pub parent_id: Option<u32>,
    pub title: Seq<char>,
    pub labels: u64,
    pub statistics: Seq<usize>,
}

pub open spec fn text_option(o: Option<String>) -> Option<Seq<char>> {
    match o {
        Some(s) => Some(s@),
        None => None,
    }
}

impl View for PlanProfile {
    type V = PlanProfileView;

    open spec fn view(&self) -> PlanProfileView {
        PlanProfileView {
            id: self.id,
            name: text_option(self.name),
            parent_id: self.parent_id,
            title: self.title@,
            labels: self.labels,
            statistics: self.statistics@,
        }
    }
}

/// Two lists of measures can be added up.
pub open spec fn addable(a: Seq<usize>, b: Seq<usize>) -> bool {
    a.len() == b.len() && forall|i: int| 0 <= i < a.len() ==> #[trigger] a[i] + b[i] <= usize::MAX
}

/// Measures added up one by one.
pub open spec fn added(a: Seq<usize>, b: Seq<usize>) -> Seq<usize> {
    Seq::new(a.len(), |i: int| (a[i] + b[i]) as usize)
}

fn add_statistics(a: &mut Vec<usize>, b: &Vec<usize>)
    requires
        addable(old(a)@, b@),
    ensures
        final(a)@ == added(old(a)@, b@),
{
    let ghost before = a@;
    let mut index: usize = 0;
    while index < b.len()
        invariant
            index <= b@.len(),
            addable(before, b@),
            a@.len() == before.len(),
            forall|i: int| 0 <= i < index ==> #[trigger] a@[i] == added(before, b@)[i],
            forall|i: int| index <= i < before.len() ==> #[trigger] a@[i] == before[i],
        decreases b.len() - index,
    {
        let sum: usize = a[index] + b[index];
        a.set(index, sum);
        index += 1;
    }
    assert(a@ =~= added(before, b@));
}

impl PlanProfile {
    pub fn create(profile: &Profile) -> (r: PlanProfile)
        ensures
            r@ == (PlanProfileView {
                id: profile.plan_id,
                name: text_option(profile.plan_name),
                parent_id: profile.plan_parent_id,
                title: profile.title@,
                labels: profile.labels,
                statistics: profile.statistics@,
            }),
    {
        let statistics = profile.statistics.clone();
        assert(statistics@ =~= profile.statistics@);
        PlanProfile {
            id: profile.plan_id,
            name: match &profile.plan_name {
                Some(name) => Some(name.clone()),
                None => None,
            },
            parent_id: profile.plan_parent_id,
            title: profile.title.clone(),
            labels: profile.labels,
            statistics,
        }
    }

    /// Adds what was measured of a processor.
    pub fn accumulate(&mut self, profile: &Profile)
        requires
            addable(old(self)@.statistics, profile.statistics@),
        ensures
            final(self)@ == (PlanProfileView {
                statistics: added(old(self)@.statistics, profile.statistics@),
                ..old(self)@
            }),
    {
        add_statistics(&mut self.statistics, &profile.statistics);
    }

    /// Adds what was measured of the step elsewhere, and the parent where it was not known.
    pub fn merge(&mut self, profile: &PlanProfile)
        requires
            addable(old(self)@.statistics, profile@.statistics),
        ensures
            final(self)@ == (PlanProfileView {
                parent_id: if old(self).parent_id is None {
                    profile.parent_id
                } else {
                    old(self).parent_id
                },
                statistics: added(old(self)@.statistics, profile@.statistics),
                ..old(self)@
            }),
    {
        if self.parent_id.is_none() {
            self.parent_id = profile.parent_id;
        }
        add_statistics(&mut self.statistics, &profile.statistics);
    }
}

/// Measures that are added up in another order come to the same.
pub proof fn merged_statistics_commute(a: Seq<usize>, b: Seq<usize>, c: Seq<usize>)
    requires
        a.len() == b.len(),
        b.len() == c.len(),
        forall|i: int| 0 <= i < a.len() ==> #[trigger] a[i] + b[i] + c[i] <= usize::MAX,
    ensures
        addable(a, b) && added(a, b) == added(b, a),
        addable(added(a, b), c) && added(added(a, b), c) == added(added(a, c), b),
{
    assert(added(a, b) =~= added(b, a));
    assert(added(added(a, b), c) =~= added(added(a, c), b));
}

/// The number of scopes that are open when one is closed.
#[derive(Debug)]
pub struct PlanScopeGuard {
    idx: usize,
}

impl PlanScopeGuard {
    pub closed spec fn index(&self) -> usize {
        self.idx
    }

    /// Opens scope `idx`.
    pub fn create(idx: usize) -> (r: PlanScopeGuard)
        ensures
            r.index() == idx,
    {
        PlanScopeGuard { idx }
    }

    /// Closes the scope. Tells whether it was the last one that was opened; if not, the scopes
    /// are broken.
    pub fn close(self, scope_size: &mut usize) -> (r: bool)
        requires
            self.index() < usize::MAX,
        ensures
            *final(scope_size) == (if *old(scope_size) == 0 {
                usize::MAX
            } else {
                (*old(scope_size) - 1) as usize
            }),
            r == (*old(scope_size) == self.index() + 1),
    {
        let size: usize = *scope_size;
        *scope_size = size.wrapping_sub(1);
        size == self.idx + 1
    }
}

/// Where in a plan a processor belongs.
#[derive(Debug)]
pub struct PlanScope {
    pub id: u32,
    pub name: String,
    pub parent_id: Option<u32>,
    pub title: String,
    /// The labels, by the number under which they are kept.
    pub labels: u64,
}

impl PlanScope {
    pub fn create(id: u32, name: String, title: String, labels: u64) -> (r: PlanScope)
        ensures
            r == (PlanScope { id, name, parent_id: None, title, labels }),
    {
        PlanScope { id, labels, title, parent_id: None, name }
    }
}

/// Measures are added one by one, and none is lost.
pub proof fn measures_are_added(a: Seq<usize>, b: Seq<usize>, i: int)
    requires
        addable(a, b),
        0 <= i < a.len(),
    ensures
        added(a, b).len() == a.len(),
        added(a, b)[i] as int == a[i] as int + b[i] as int,
{
}

}
