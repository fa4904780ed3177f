use vstd::prelude::*;
use crate::matching::{contains_sorted, sort_names, sorted_names};

verus! {

/// The views of a sequence of strings.
pub open spec fn views_of(v: Seq<String>) -> Seq<Seq<char>> {
    v.map_values(|s: String| s@)
}

/// Number of names that go to the training split: floor(0.8 * n).
pub open spec fn train_count(n: nat) -> nat {
    (4 * n / 5) as nat
}

/// Number of names that go to the validation split: half of what is left, rounded down.
pub open spec fn val_count(n: nat) -> nat {
    ((n - train_count(n)) / 2) as nat
}

/// Number of names that go to the test split: the rest.
pub open spec fn test_count(n: nat) -> nat {
    (n - train_count(n) - val_count(n)) as nat
}

/// One of the three partitions of the dataset.
#[derive(Clone, Copy, Debug, PartialEq, Eq, Structural)]
pub enum Split {
    Train,
    Val,
    Test,
}

impl Split {
    /// The folder name of the split in the output layout.
    pub open spec fn folder_spec(self) -> Seq<char> {
        match self {
            Split::Train => "train"@,
            Split::Val => "val"@,
            Split::Test => "test"@,
        }
    }

    /// Returns the folder name of the split.
    pub fn folder(&self) -> (r: &'static str)
        ensures
            r@ == self.folder_spec(),
    {
        match self {
            Split::Train => "train",
            Split::Val => "val",
            Split::Test => "test",
        }
    }
}

/// The matched names, partitioned in their given order into train, validation and test.
pub struct SplitPlan {
    pub train: Vec<String>,
    pub val: Vec<String>,
    pub test: Vec<String>,
}

impl SplitPlan {
    /// The three parts of `names` that `plan_splits` produces.
    pub open spec fn is_plan_of(&self, names: Seq<String>) -> bool {
        let n = names.len();
        &&& self.train@ == names.subrange(0, train_count(n) as int)
        &&& self.val@ == names.subrange(
            train_count(n) as int,
            (train_count(n) + val_count(n)) as int,
        )
        &&& self.test@ == names.subrange((train_count(n) + val_count(n)) as int, n as int)
    }

    /// The split that a name is placed in: the first of train, val, test that holds it.
    pub open spec fn split_of_spec(&self, name: Seq<char>) -> Option<Split> {
        if views_of(self.train@).contains(name) {
            Some(Split::Train)
        } else if views_of(self.val@).contains(name) {
            Some(Split::Val)
        } else if views_of(self.test@).contains(name) {
            Some(Split::Test)
        } else {
            None
        }
    }

    /// Returns the split that holds `name`, if any.
    pub fn split_of(&self, name: &String) -> (r: Option<Split>)
        ensures
            r == self.split_of_spec(name@),
    {
        if contains_name(&self.train, name) {
            Some(Split::Train)
        } else if contains_name(&self.val, name) {
            Some(Split::Val)
        } else if contains_name(&self.test, name) {
            Some(Split::Test)
        } else {
            None
        }
    }
}

/// Whether `sorted` holds exactly the names of `part`, in sorted order.
pub open spec fn sorts(sorted: Seq<String>, part: Seq<String>) -> bool {
    &&& sorted_names(views_of(sorted))
    &&& forall|x: Seq<char>| #[trigger]
        views_of(sorted).contains(x) <==> views_of(part).contains(x)
}

/// Returns a sorted copy of `part`.
fn sorted_copy(part: &Vec<String>) -> (r: Vec<String>)
    ensures
        sorts(r@, part@),
{
    let mut names = part.clone();
    proof {
        assert(views_of(names@) =~= views_of(part@)) by {
            assert forall|i: int| 0 <= i < part@.len() implies names@[i] == part@[i] by {
                assert(vstd::pervasive::cloned::<String>(part@[i], names@[i]));
            }
        }
    }
    let ghost before = views_of(names@);
    sort_names(&mut names);
    proof {
        views_of(names@).to_multiset_ensures();
        before.to_multiset_ensures();
        assert forall|x: Seq<char>| #[trigger]
            views_of(names@).contains(x) <==> views_of(part@).contains(x) by {
            assert(views_of(names@).to_multiset().count(x) == before.to_multiset().count(x));
        }
    }
    names
}

/// A plan with its splits sorted once, so that each lookup is a binary search.
pub struct SplitIndex {
    plan: SplitPlan,
    train: Vec<String>,
    val: Vec<String>,
    test: Vec<String>,
}

impl SplitIndex {
    /// The plan that this index answers for.
    pub closed spec fn plan_spec(&self) -> SplitPlan {
        self.plan
    }

    /// Each sorted copy holds the names of its split.
    pub closed spec fn wf(&self) -> bool {
        &&& sorts(self.train@, self.plan.train@)
        &&& sorts(self.val@, self.plan.val@)
        &&& sorts(self.test@, self.plan.test@)
    }

    /// Builds the lookup table of `plan`.
    pub fn new(plan: SplitPlan) -> (r: SplitIndex)
        ensures
            r.wf(),
            r.plan_spec() == plan,
    {
        let train = sorted_copy(&plan.train);
        let val = sorted_copy(&plan.val);
        let test = sorted_copy(&plan.test);
        SplitIndex { plan, train, val, test }
    }

    /// The plan that this index answers for.
    pub fn plan(&self) -> (r: &SplitPlan)
        ensures
            *r == self.plan_spec(),
    {
        &self.plan
    }

    /// Returns the split that holds `name`, as `SplitPlan::split_of` does.
    pub fn split_of(&self, name: &String) -> (r: Option<Split>)
        requires
            self.wf(),
        ensures
            r == self.plan_spec().split_of_spec(name@),
    {
        if contains_sorted(&self.train, name) {
            Some(Split::Train)
        } else if contains_sorted(&self.val, name) {
            Some(Split::Val)
        } else if contains_sorted(&self.test, name) {
            Some(Split::Test)
        } else {
            None
        }
    }
}

/// Tells whether `names` holds a string equal to `name`.
pub fn contains_name(names: &Vec<String>, name: &String) -> (r: bool)
    ensures
        r == views_of(names@).contains(name@),
{
    let mut i: usize = 0;
    while i < names.len()
        invariant
            i <= names@.len(),
            forall|j: int| 0 <= j < i ==> names@[j]@ != name@,
        decreases names@.len() - i,
    {
        if names[i] == *name {
            assert(views_of(names@)[i as int] == name@);
            return true;
        }
        i += 1;
    }
    proof {
        if views_of(names@).contains(name@) {
            let j = choose|j: int| 0 <= j < names@.len() && views_of(names@)[j] == name@;
            assert(names@[j]@ == name@);
        }
    }
    false
}

/// Computes `train_count(n)` without overflow.
pub fn train_len(n: usize) -> (r: usize)
    ensures
        r == train_count(n as nat),
{
    let q: usize = n / 5;
    let m: usize = n % 5;
    proof {
        assert(4 * n / 5 == q * 4 + m * 4 / 5) by (nonlinear_arith)
            requires
                q == n / 5,
                m == n % 5,
        ;
    }
    q * 4 + m * 4 / 5
}

/// Partitions `names`, keeping their order: the first floor(0.8 n) go to train,
/// then half of the rest, rounded down, to val, and what remains to test.
pub fn plan_splits(names: Vec<String>) -> (r: SplitPlan)
    ensures
        r.is_plan_of(names@),
{
    let n = names.len();
    let t = train_len(n);
    let v = (n - t) / 2;
    let mut train = names;
    let mut val = train.split_off(t);
    let test = val.split_off(v);
    let r = SplitPlan { train, val, test };
    assert(r.val@ =~= names@.subrange(t as int, (t + v) as int));
    assert(r.test@ =~= names@.subrange((t + v) as int, n as int));
    r
}

/// The split sizes add up to the number of names; train holds floor(0.8 n),
/// val is within one of floor(0.1 n), and test holds the remainder.
pub proof fn lemma_split_sizes(n: nat)
    ensures
        train_count(n) + val_count(n) + test_count(n) == n,
        train_count(n) == 4 * n / 5,
        n / 10 <= val_count(n) + 1,
        val_count(n) <= n / 10 + 1,
        test_count(n) == n - train_count(n) - val_count(n),
{
    let t = 4 * n / 5;
    assert(t <= n) by (nonlinear_arith)
        requires
            t == 4 * n / 5,
    ;
    assert(n / 10 <= (n - t) / 2 + 1 && (n - t) / 2 <= n / 10 + 1) by (nonlinear_arith)
        requires
            t == 4 * n / 5,
    ;
}

/// The split that `plan_splits` gives to position `i` of `n` names.
pub open spec fn split_at_position(i: int, n: nat) -> Split {
    if i < train_count(n) {
        Split::Train
    } else if i < train_count(n) + val_count(n) {
        Split::Val
    } else {
        Split::Test
    }
}

/// A plan covers the names in order, and when the names are distinct each name
/// lies in exactly one split: the one its position falls in. No name of one
/// split is found in another.
pub proof fn lemma_plan_partition(plan: SplitPlan, names: Seq<String>)
    requires
        plan.is_plan_of(names),
        views_of(names).no_duplicates(),
    ensures
        plan.train@ + plan.val@ + plan.test@ == names,
        forall|i: int|
            0 <= i < names.len() ==> #[trigger] plan.split_of_spec(names[i]@) == Some(
                split_at_position(i, names.len()),
            ),
        forall|x: Seq<char>|
            !(views_of(plan.train@).contains(x) && views_of(plan.val@).contains(x)),
        forall|x: Seq<char>|
            !(views_of(plan.train@).contains(x) && views_of(plan.test@).contains(x)),
        forall|x: Seq<char>|
            !(views_of(plan.val@).contains(x) && views_of(plan.test@).contains(x)),
{
    let n = names.len();
    let t = train_count(n) as int;
    let v = val_count(n) as int;
    lemma_split_sizes(n);
    let nv = views_of(names);
    assert(plan.train@ + plan.val@ + plan.test@ =~= names);
    assert forall|i: int| 0 <= i < n implies #[trigger] plan.split_of_spec(names[i]@) == Some(
        split_at_position(i, n),
    ) by {
        let x = names[i]@;
        assert(nv[i] == x);
        if i < t {
            assert(views_of(plan.train@)[i] == x);
        } else {
            if views_of(plan.train@).contains(x) {
                let j = choose|j: int| 0 <= j < plan.train@.len() && views_of(plan.train@)[j] == x;
                assert(nv[j] == x);
            }
            if i < t + v {
                assert(views_of(plan.val@)[i - t] == x);
            } else {
                if views_of(plan.val@).contains(x) {
                    let j = choose|j: int| 0 <= j < plan.val@.len() && views_of(plan.val@)[j] == x;
                    assert(nv[j + t] == x);
                }
                assert(views_of(plan.test@)[i - t - v] == x);
            }
        }
    }
    assert forall|x: Seq<char>|
        !(views_of(plan.train@).contains(x) && views_of(plan.val@).contains(x)) by {
        if views_of(plan.train@).contains(x) && views_of(plan.val@).contains(x) {
            let j = choose|j: int| 0 <= j < plan.train@.len() && views_of(plan.train@)[j] == x;
            let k = choose|k: int| 0 <= k < plan.val@.len() && views_of(plan.val@)[k] == x;
            assert(nv[j] == x && nv[k + t] == x);
        }
    }
    assert forall|x: Seq<char>|
        !(views_of(plan.train@).contains(x) && views_of(plan.test@).contains(x)) by {
        if views_of(plan.train@).contains(x) && views_of(plan.test@).contains(x) {
            let j = choose|j: int| 0 <= j < plan.train@.len() && views_of(plan.train@)[j] == x;
            let k = choose|k: int| 0 <= k < plan.test@.len() && views_of(plan.test@)[k] == x;
            assert(nv[j] == x && nv[k + t + v] == x);
        }
    }
    assert forall|x: Seq<char>|
        !(views_of(plan.val@).contains(x) && views_of(plan.test@).contains(x)) by {
        if views_of(plan.val@).contains(x) && views_of(plan.test@).contains(x) {
            let j = choose|j: int| 0 <= j < plan.val@.len() && views_of(plan.val@)[j] == x;
            let k = choose|k: int| 0 <= k < plan.test@.len() && views_of(plan.test@)[k] == x;
            assert(nv[j + t] == x && nv[k + t + v] == x);
        }
    }
}

} // verus!
