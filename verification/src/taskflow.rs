use vstd::prelude::*;

verus! {

/// Why a task or a condition did not produce a result.
#[derive(Debug)]
pub enum Error {
    /// No branch succeeded, or no branch was available for the condition's verdict.
    NoResult,
    /// A leaf task reported a failure of its own: the task's name and the cause.
    TaskFailed { task: String, cause: String },
}

/// A host-defined value that is threaded through a task tree.
///
/// The engine never looks inside a state. It copies one with `clone` wherever
/// two paths start from the same value, and it combines the results of
/// independent paths with `merge`.
pub trait State: Clone + Sized {
    /// The value that `merge` computes.
    spec fn merged(&self, b: &Self) -> Self;

    fn merge(&self, b: &Self) -> (r: Self)
        ensures
            r == self.merged(b),
    ;

    /// A clone of a state is that state.
    proof fn clone_is_faithful(a: Self, b: Self)
        requires
            cloned::<Self>(a, b),
        ensures
            a == b,
    ;
}

/// A named unit of work over a state.
pub trait Task<T: State> {
    /// The name, as a sequence of characters.
    spec fn label(&self) -> Seq<char>;

    /// What running the task on `state` returns. `None` stands for the states
    /// on which the task has no defined result: a leaf whose function does not
    /// accept the state, or a loop that never ends.
    spec fn outcome(&self, state: T) -> Option<Result<T, Error>>;

    fn name(&self) -> (r: &str)
        ensures
            r@ == self.label(),
    ;

    fn execute(&self, state: T) -> (r: Result<T, Error>)
        requires
            self.outcome(state).is_some(),
        ensures
            self.outcome(state) == Some(r),
    ;
}

/// A named predicate over a state.
pub trait Condition<T: State> {
    /// The name, as a sequence of characters.
    spec fn label(&self) -> Seq<char>;

    /// What evaluating the condition on `state` returns, `None` where that is
    /// not defined.
    spec fn verdict(&self, state: T) -> Option<Result<bool, Error>>;

    fn name(&self) -> (r: &str)
        ensures
            r@ == self.label(),
    ;

    fn execute(&self, state: T) -> (r: Result<bool, Error>)
        requires
            self.verdict(state).is_some(),
        ensures
            self.verdict(state) == Some(r),
    ;
}

/// Builder step that gives a node its display name.
pub trait WithName: Sized {
    fn with_name(self, n: &str) -> Self;
}

/// The result of running `tasks` in order, each on the state that the one
/// before it produced, stopping at the first failure.
pub open spec fn chain<T: State>(tasks: Seq<&dyn Task<T>>, state: T) -> Option<Result<T, Error>>
    decreases tasks.len(),
{
    if tasks.len() == 0 {
        Some(Ok(state))
    } else {
        match tasks[0].outcome(state) {
            None => None,
            Some(Err(e)) => Some(Err(e)),
            Some(Ok(next)) => chain(tasks.drop_first(), next),
        }
    }
}

/// The result of the first of `tasks` that succeeds on `state`; `NoResult`
/// where none does.
pub open spec fn first_success<T: State>(tasks: Seq<&dyn Task<T>>, state: T) -> Option<
    Result<T, Error>,
>
    decreases tasks.len(),
{
    if tasks.len() == 0 {
        Some(Err(Error::NoResult))
    } else {
        match tasks[0].outcome(state) {
            None => None,
            Some(Ok(done)) => Some(Ok(done)),
            Some(Err(_)) => first_success(tasks.drop_first(), state),
        }
    }
}

/// The failures of the tasks that an alternation of `tasks` tries on `state`
/// before one succeeds, in the order of `tasks`.
pub open spec fn failed_attempts<T: State>(tasks: Seq<&dyn Task<T>>, state: T) -> Seq<Error>
    decreases tasks.len(),
{
    if tasks.len() == 0 {
        Seq::empty()
    } else {
        match tasks[0].outcome(state) {
            Some(Err(e)) => seq![e] + failed_attempts(tasks.drop_first(), state),
            _ => Seq::empty(),
        }
    }
}

/// Whether every one of `tasks` has a defined result on `state`.
pub open spec fn all_defined<T: State>(tasks: Seq<&dyn Task<T>>, state: T) -> bool {
    forall|i: int| 0 <= i < tasks.len() ==> (#[trigger] tasks[i]).outcome(state).is_some()
}

/// The results of `tasks`, each run on `state`, in the order of `tasks`.
pub open spec fn fan_out<T: State>(tasks: Seq<&dyn Task<T>>, state: T) -> Seq<Result<T, Error>> {
    Seq::new(tasks.len(), |i: int| tasks[i].outcome(state).unwrap())
}

/// `acc` merged with each state of `rest` in turn, from the left; the first
/// failure in `rest` where there is one.
pub open spec fn merge_into<T: State>(acc: T, rest: Seq<Result<T, Error>>) -> Result<T, Error>
    decreases rest.len(),
{
    if rest.len() == 0 {
        Ok(acc)
    } else {
        match rest[0] {
            Err(e) => Err(e),
            Ok(s) => merge_into(acc.merged(&s), rest.drop_first()),
        }
    }
}

/// What a fan-out yields from the results of its children, given in the order
/// in which the children were declared: `input` where there are no children,
/// the first failure where a child failed, and else the children's states
/// merged from the left.
pub open spec fn joined<T: State>(input: T, results: Seq<Result<T, Error>>) -> Result<T, Error> {
    if results.len() == 0 {
        Ok(input)
    } else {
        match results[0] {
            Err(e) => Err(e),
            Ok(s) => merge_into(s, results.drop_first()),
        }
    }
}

/// The result of running the tasks that `slots` hold, in order, each on the
/// state that the one before it produced; an empty slot is passed over.
pub open spec fn chain_slots<T: State>(slots: Seq<Option<&dyn Task<T>>>, state: T) -> Option<
    Result<T, Error>,
>
    decreases slots.len(),
{
    if slots.len() == 0 {
        Some(Ok(state))
    } else {
        match slots[0] {
            None => chain_slots(slots.drop_first(), state),
            Some(task) => match task.outcome(state) {
                None => None,
                Some(Err(e)) => Some(Err(e)),
                Some(Ok(next)) => chain_slots(slots.drop_first(), next),
            },
        }
    }
}

/// A leaf: a host function under a name.
#[verifier::reject_recursive_types(T)]
pub struct TaskImpl<'a, T: State, F: Fn(T) -> Result<T, Error>> {
    pub n: &'a str,
    pub method: &'a F,
    pub state: core::marker::PhantomData<T>,
}

impl<'a, T: State, F: Fn(T) -> Result<T, Error>> Task<T> for TaskImpl<'a, T, F> {
    open spec fn label(&self) -> Seq<char> {
        self.n@
    }

    /// The one result that the function's contract allows on `state`, where
    /// the function accepts `state` and allows one result only.
    open spec fn outcome(&self, state: T) -> Option<Result<T, Error>> {
        if call_requires(self.method, (state,)) && (forall|
            a: Result<T, Error>,
            b: Result<T, Error>,
        |
            call_ensures(self.method, (state,), a) && call_ensures(self.method, (state,), b) ==> a
                == b) {
            Some(choose|r: Result<T, Error>| call_ensures(self.method, (state,), r))
        } else {
            None
        }
    }

    fn name(&self) -> (r: &str)
        ensures
            r == self.n,
    {
        self.n
    }

    fn execute(&self, state: T) -> (r: Result<T, Error>)
        ensures
            call_ensures(self.method, (state,), r),
    {
        (self.method)(state)
    }
}

/// Runs its children in order, each on the state that the one before it
/// produced, and fails with the first failure.
#[verifier::reject_recursive_types(T)]
pub struct SequenceTask<'a, T: State> {
    pub n: String,
    pub tasks: Vec<&'a dyn Task<T>>,
}

impl<'a, T: State> Task<T> for SequenceTask<'a, T> {
    open spec fn label(&self) -> Seq<char> {
        self.n@
    }

    open spec fn outcome(&self, state: T) -> Option<Result<T, Error>> {
        chain(self.tasks@, state)
    }

    fn name(&self) -> (r: &str) {
        self.n.as_str()
    }

    fn execute(&self, state: T) -> (r: Result<T, Error>) {
        let n = self.tasks.len();
        let mut current = state;
        let mut i: usize = 0;
        assert(self.tasks@.subrange(0, n as int) =~= self.tasks@);
        while i < n
            invariant
                i <= n,
                n == self.tasks.len(),
                chain(self.tasks@, state).is_some(),
                chain(self.tasks@.subrange(i as int, n as int), current) == chain(
                    self.tasks@,
                    state,
                ),
            decreases n - i,
        {
            proof {
                let rest = self.tasks@.subrange(i as int, n as int);
                assert(rest[0] == self.tasks@[i as int]);
                assert(rest.drop_first() =~= self.tasks@.subrange(i + 1, n as int));
            }
            match self.tasks[i].execute(current) {
                Ok(next) => {
                    current = next;
                },
                Err(e) => {
                    return Err(e);
                },
            }
            i += 1;
        }
        Ok(current)
    }
}

impl<'a, T: State> WithName for SequenceTask<'a, T> {
    fn with_name(self, n: &str) -> (r: Self)
        ensures
            r.n@ == n@,
            r.tasks == self.tasks,
            forall|s: T| r.outcome(s) == self.outcome(s),
    {
        SequenceTask { n: n.to_owned(), tasks: self.tasks }
    }
}

/// Tries its children in order, each on a copy of the input, and returns the
/// result of the first that succeeds.
#[verifier::reject_recursive_types(T)]
pub struct OrTask<'a, T: State> {
    pub n: String,
    pub tasks: Vec<&'a dyn Task<T>>,
}

impl<'a, T: State> Task<T> for OrTask<'a, T> {
    open spec fn label(&self) -> Seq<char> {
        self.n@
    }

    open spec fn outcome(&self, state: T) -> Option<Result<T, Error>> {
        first_success(self.tasks@, state)
    }

    fn name(&self) -> (r: &str) {
        self.n.as_str()
    }

    fn execute(&self, state: T) -> (r: Result<T, Error>) {
        self.execute_with_causes(state).0
    }
}

impl<'a, T: State> OrTask<'a, T> {
    /// Runs the alternation as `execute` does, and returns beside its result
    /// the failures of the children that were tried in vain, in their order.
    pub fn execute_with_causes(&self, state: T) -> (r: (Result<T, Error>, Vec<Error>))
        requires
            self.outcome(state).is_some(),
        ensures
            self.outcome(state) == Some(r.0),
            r.1@ == failed_attempts(self.tasks@, state),
    {
        let n = self.tasks.len();
        let mut causes: Vec<Error> = Vec::new();
        let mut i: usize = 0;
        assert(self.tasks@.subrange(0, n as int) =~= self.tasks@);
        while i < n
            invariant
                i <= n,
                n == self.tasks.len(),
                first_success(self.tasks@, state).is_some(),
                first_success(self.tasks@.subrange(i as int, n as int), state) == first_success(
                    self.tasks@,
                    state,
                ),
                causes@ + failed_attempts(self.tasks@.subrange(i as int, n as int), state)
                    == failed_attempts(self.tasks@, state),
            decreases n - i,
        {
            let ghost rest = self.tasks@.subrange(i as int, n as int);
            proof {
                assert(rest[0] == self.tasks@[i as int]);
                assert(rest.drop_first() =~= self.tasks@.subrange(i + 1, n as int));
            }
            let copy = state.clone();
            proof {
                T::clone_is_faithful(state, copy);
            }
            match self.tasks[i].execute(copy) {
                Ok(done) => {
                    assert(causes@ + Seq::<Error>::empty() =~= causes@);
                    return (Ok(done), causes);
                },
                Err(e) => {
                    assert(causes@.push(e) + failed_attempts(rest.drop_first(), state) =~= causes@
                        + (seq![e] + failed_attempts(rest.drop_first(), state)));
                    causes.push(e);
                },
            }
            i += 1;
        }
        assert(causes@ + Seq::<Error>::empty() =~= causes@);
        (Err(Error::NoResult), causes)
    }
}

impl<'a, T: State> WithName for OrTask<'a, T> {
    fn with_name(self, n: &str) -> (r: Self)
        ensures
            r.n@ == n@,
            r.tasks == self.tasks,
            forall|s: T| r.outcome(s) == self.outcome(s),
    {
        OrTask { n: n.to_owned(), tasks: self.tasks }
    }
}

/// Combines the results that the children of a fan-out returned, given in the
/// order in which the children were declared, whatever the order in which
/// they finished.
pub fn join_results<T: State>(input: T, results: Vec<Result<T, Error>>) -> (r: Result<T, Error>)
    ensures
        r == joined(input, results@),
{
    let ghost all = results@;
    let mut merged: Option<T> = None;
    for item in it: results.into_iter()
        invariant
            it.seq() == all,
            it.index() == 0 ==> merged.is_none(),
            it.index() > 0 ==> merged.is_some() && merge_into(
                merged.unwrap(),
                all.subrange(it.index() as int, all.len() as int),
            ) == joined(input, all),
    {
        let ghost rest = all.subrange(it.index() as int, all.len() as int);
        proof {
            assert(rest[0] == all[it.index() as int]);
            assert(rest.drop_first() =~= all.subrange(it.index() + 1, all.len() as int));
            assert(all.drop_first() =~= all.subrange(1, all.len() as int));
        }
        match item {
            Err(e) => {
                return Err(e);
            },
            Ok(next) => {
                merged = Some(
                    match merged {
                        None => next,
                        Some(acc) => acc.merge(&next),
                    },
                );
            },
        }
    }
    match merged {
        None => Ok(input),
        Some(acc) => {
            assert(all.subrange(all.len() as int, all.len() as int) =~= Seq::empty());
            Ok(acc)
        },
    }
}

/// Runs each child on a copy of the input and merges what they return, in the
/// order in which the children were declared.
///
/// `execute` runs the children one after the other on the calling thread. A
/// host that runs them on threads of its own hands what they returned to
/// [`join_results`], and gets the same result.
#[verifier::reject_recursive_types(T)]
pub struct ConcurrentTask<'a, T: State> {
    pub n: String,
    pub tasks: Vec<&'a dyn Task<T>>,
}

impl<'a, T: State> Task<T> for ConcurrentTask<'a, T> {
    open spec fn label(&self) -> Seq<char> {
        self.n@
    }

    open spec fn outcome(&self, state: T) -> Option<Result<T, Error>> {
        if all_defined(self.tasks@, state) {
            Some(joined(state, fan_out(self.tasks@, state)))
        } else {
            None
        }
    }

    fn name(&self) -> (r: &str) {
        self.n.as_str()
    }

    fn execute(&self, state: T) -> (r: Result<T, Error>) {
        let n = self.tasks.len();
        let mut results: Vec<Result<T, Error>> = Vec::new();
        let mut i: usize = 0;
        while i < n
            invariant
                i <= n,
                n == self.tasks.len(),
                all_defined(self.tasks@, state),
                results@ =~= fan_out(self.tasks@, state).subrange(0, i as int),
            decreases n - i,
        {
            let copy = state.clone();
            proof {
                T::clone_is_faithful(state, copy);
            }
            let result = self.tasks[i].execute(copy);
            results.push(result);
            i += 1;
        }
        assert(results@ =~= fan_out(self.tasks@, state));
        join_results(state, results)
    }
}

impl<'a, T: State> WithName for ConcurrentTask<'a, T> {
    fn with_name(self, n: &str) -> (r: Self)
        ensures
            r.n@ == n@,
            r.tasks == self.tasks,
            forall|s: T| r.outcome(s) == self.outcome(s),
    {
        ConcurrentTask { n: n.to_owned(), tasks: self.tasks }
    }
}

/// Runs one of two children, chosen by a condition.
#[verifier::reject_recursive_types(T)]
pub struct IfTask<'a, T: State> {
    pub n: String,
    pub condition: &'a dyn Condition<T>,
    pub then_do: &'a dyn Task<T>,
    pub default_do: Option<&'a dyn Task<T>>,
}

impl<'a, T: State> Task<T> for IfTask<'a, T> {
    open spec fn label(&self) -> Seq<char> {
        self.n@
    }

    open spec fn outcome(&self, state: T) -> Option<Result<T, Error>> {
        match self.condition.verdict(state) {
            None => None,
            Some(Err(e)) => Some(Err(e)),
            Some(Ok(true)) => self.then_do.outcome(state),
            Some(Ok(false)) => match self.default_do {
                Some(task) => task.outcome(state),
                None => Some(Err(Error::NoResult)),
            },
        }
    }

    fn name(&self) -> (r: &str) {
        self.n.as_str()
    }

    fn execute(&self, state: T) -> (r: Result<T, Error>) {
        let copy = state.clone();
        proof {
            T::clone_is_faithful(state, copy);
        }
        match self.condition.execute(copy) {
            Err(e) => Err(e),
            Ok(true) => self.then_do.execute(state),
            Ok(false) => match self.default_do {
                Some(task) => task.execute(state),
                None => Err(Error::NoResult),
            },
        }
    }
}

impl<'a, T: State> WithName for IfTask<'a, T> {
    fn with_name(self, n: &str) -> (r: Self)
        ensures
            r.n@ == n@,
            forall|s: T| r.outcome(s) == self.outcome(s),
    {
        let mut named = self;
        named.n = n.to_owned();
        named
    }
}

impl<'a, T: State> IfTask<'a, T> {
    /// Sets the child that runs where the condition is false.
    pub fn with_default(&mut self, task: &'a dyn Task<T>) -> (r: &Self)
        ensures
            final(self).default_do === Some(task),
            final(self).n == old(self).n,
            forall|s: T| final(self).condition.verdict(s) == old(self).condition.verdict(s),
            forall|s: T| final(self).then_do.outcome(s) == old(self).then_do.outcome(s),
            *r === *final(self),
    {
        self.default_do = Some(task);
        self
    }
}

/// Repeats a child while a condition holds.
#[verifier::reject_recursive_types(T)]
pub struct LoopTask<'a, T: State> {
    pub n: String,
    pub condition: &'a dyn Condition<T>,
    pub task: &'a dyn Task<T>,
}

impl<'a, T: State> LoopTask<'a, T> {
    /// The result of the loop started on `state`, within at most `fuel` runs
    /// of the body; `None` where `fuel` runs are not enough, or where the
    /// condition or the body is not defined on a state that is reached.
    pub open spec fn repeat(&self, state: T, fuel: nat) -> Option<Result<T, Error>>
        decreases fuel,
    {
        match self.condition.verdict(state) {
            None => None,
            Some(Err(e)) => Some(Err(e)),
            Some(Ok(false)) => Some(Ok(state)),
            Some(Ok(true)) => if fuel == 0 {
                None
            } else {
                match self.task.outcome(state) {
                    None => None,
                    Some(Err(e)) => Some(Err(e)),
                    Some(Ok(next)) => self.repeat(next, (fuel - 1) as nat),
                }
            },
        }
    }

    /// Whether the loop ends when started on `state`.
    pub open spec fn halts(&self, state: T) -> bool {
        exists|n: nat| (#[trigger] self.repeat(state, n)).is_some()
    }

    /// A number of runs of the body that is enough for the loop to end on
    /// `state`.
    pub open spec fn enough(&self, state: T) -> nat {
        choose|n: nat| (#[trigger] self.repeat(state, n)).is_some()
    }

    /// Two loops whose conditions and bodies give the same results give the
    /// same results themselves.
    pub proof fn repeat_follows_children(&self, other: &Self, state: T, fuel: nat)
        requires
            forall|s: T| self.condition.verdict(s) == other.condition.verdict(s),
            forall|s: T| self.task.outcome(s) == other.task.outcome(s),
        ensures
            self.repeat(state, fuel) == other.repeat(state, fuel),
        decreases fuel,
    {
        if fuel > 0 {
            match self.task.outcome(state) {
                Some(Ok(next)) => {
                    self.repeat_follows_children(other, next, (fuel - 1) as nat);
                },
                _ => {},
            }
        }
    }

    /// More fuel does not change the result of a loop that ends.
    pub proof fn repeat_is_stable(&self, state: T, n: nat, m: nat)
        requires
            self.repeat(state, n).is_some(),
            n <= m,
        ensures
            self.repeat(state, m) == self.repeat(state, n),
        decreases n,
    {
        match self.condition.verdict(state) {
            Some(Ok(true)) => {
                match self.task.outcome(state) {
                    Some(Ok(next)) => {
                        self.repeat_is_stable(next, (n - 1) as nat, (m - 1) as nat);
                    },
                    _ => {},
                }
            },
            _ => {},
        }
    }

    /// Any two numbers of runs that are enough give the same result.
    pub proof fn repeat_agrees(&self, state: T, n: nat, m: nat)
        requires
            self.repeat(state, n).is_some(),
            self.repeat(state, m).is_some(),
        ensures
            self.repeat(state, n) == self.repeat(state, m),
    {
        if n <= m {
            self.repeat_is_stable(state, n, m);
        } else {
            self.repeat_is_stable(state, m, n);
        }
    }

    /// The result of a loop that ends is the one that any sufficient number
    /// of runs gives.
    pub proof fn outcome_is_repeat(&self, state: T, n: nat)
        requires
            self.repeat(state, n).is_some(),
        ensures
            self.outcome(state) == self.repeat(state, n),
    {
        self.repeat_agrees(state, n, self.enough(state));
    }

    /// Two loops whose conditions and bodies give the same results give the
    /// same results themselves.
    pub proof fn outcome_follows_children(&self, other: &Self, state: T)
        requires
            forall|s: T| self.condition.verdict(s) == other.condition.verdict(s),
            forall|s: T| self.task.outcome(s) == other.task.outcome(s),
        ensures
            self.outcome(state) == other.outcome(state),
    {
        assert forall|n: nat| self.repeat(state, n) == other.repeat(state, n) by {
            self.repeat_follows_children(other, state, n);
        }
        if self.halts(state) {
            let n = self.enough(state);
            assert(other.repeat(state, n).is_some());
            other.outcome_is_repeat(state, n);
        } else if other.halts(state) {
            let n = other.enough(state);
            assert(self.repeat(state, n).is_some());
        }
    }
}

impl<'a, T: State> Task<T> for LoopTask<'a, T> {
    open spec fn label(&self) -> Seq<char> {
        self.n@
    }

    /// The state on which the condition first fails, or the first failure;
    /// `None` for a loop that does not end.
    open spec fn outcome(&self, state: T) -> Option<Result<T, Error>> {
        if self.halts(state) {
            self.repeat(state, self.enough(state))
        } else {
            None
        }
    }

    fn name(&self) -> (r: &str) {
        self.n.as_str()
    }

    fn execute(&self, state: T) -> (r: Result<T, Error>) {
        let ghost mut fuel = self.enough(state);
        let mut current = state;
        loop
            invariant
                self.repeat(current, fuel).is_some(),
                self.repeat(current, fuel) == self.outcome(state),
            decreases fuel,
        {
            let copy = current.clone();
            proof {
                T::clone_is_faithful(current, copy);
            }
            match self.condition.execute(copy) {
                Err(e) => {
                    return Err(e);
                },
                Ok(false) => {
                    return Ok(current);
                },
                Ok(true) => {},
            }
            match self.task.execute(current) {
                Err(e) => {
                    return Err(e);
                },
                Ok(next) => {
                    current = next;
                },
            }
            proof {
                fuel = (fuel - 1) as nat;
            }
        }
    }
}

impl<'a, T: State> WithName for LoopTask<'a, T> {
    fn with_name(self, n: &str) -> (r: Self)
        ensures
            r.n@ == n@,
            forall|s: T| r.outcome(s) == self.outcome(s),
    {
        let mut named = self;
        named.n = n.to_owned();
        proof {
            assert forall|s: T| named.outcome(s) == self.outcome(s) by {
                named.outcome_follows_children(&self, s);
            }
        }
        named
    }
}

/// Runs an initial child, then those of an ordered list of slots that hold a
/// child, each on the state that the one before it produced.
#[verifier::reject_recursive_types(T)]
pub struct PromiseTask<'a, T: State> {
    pub n: String,
    pub init_task: &'a dyn Task<T>,
    pub other_tasks: Vec<Option<&'a dyn Task<T>>>,
}

impl<'a, T: State> Task<T> for PromiseTask<'a, T> {
    open spec fn label(&self) -> Seq<char> {
        self.n@
    }

    open spec fn outcome(&self, state: T) -> Option<Result<T, Error>> {
        match self.init_task.outcome(state) {
            None => None,
            Some(Err(e)) => Some(Err(e)),
            Some(Ok(seed)) => chain_slots(self.other_tasks@, seed),
        }
    }

    fn name(&self) -> (r: &str) {
        self.n.as_str()
    }

    fn execute(&self, state: T) -> (r: Result<T, Error>) {
        let mut current = match self.init_task.execute(state) {
            Ok(seed) => seed,
            Err(e) => {
                return Err(e);
            },
        };
        let n = self.other_tasks.len();
        let mut i: usize = 0;
        assert(self.other_tasks@.subrange(0, n as int) =~= self.other_tasks@);
        while i < n
            invariant
                i <= n,
                n == self.other_tasks.len(),
                self.outcome(state).is_some(),
                chain_slots(self.other_tasks@.subrange(i as int, n as int), current)
                    == self.outcome(state),
            decreases n - i,
        {
            proof {
                let rest = self.other_tasks@.subrange(i as int, n as int);
                assert(rest[0] == self.other_tasks@[i as int]);
                assert(rest.drop_first() =~= self.other_tasks@.subrange(i + 1, n as int));
            }
            match self.other_tasks[i] {
                Some(task) => {
                    match task.execute(current) {
                        Ok(next) => {
                            current = next;
                        },
                        Err(e) => {
                            return Err(e);
                        },
                    }
                },
                None => {},
            }
            i += 1;
        }
        Ok(current)
    }
}

impl<'a, T: State> WithName for PromiseTask<'a, T> {
    fn with_name(self, n: &str) -> (r: Self)
        ensures
            r.n@ == n@,
            r.other_tasks == self.other_tasks,
            forall|s: T| r.outcome(s) == self.outcome(s),
    {
        let mut named = self;
        named.n = n.to_owned();
        named
    }
}

/// A leaf task that runs `method` under the name `n`.
pub fn new_task<'a, T: State, F: Fn(T) -> Result<T, Error>>(n: &'a str, method: &'a F) -> (r:
    TaskImpl<'a, T, F>)
    ensures
        r.n == n,
        r.method == method,
{
    TaskImpl { n, method, state: core::marker::PhantomData }
}

/// A sequence of `tasks`, without a name.
pub fn sequence_task<'a, T: State>(tasks: Vec<&'a dyn Task<T>>) -> (r: SequenceTask<'a, T>)
    ensures
        r.n@ == Seq::<char>::empty(),
        r.tasks == tasks,
{
    SequenceTask { n: String::new(), tasks }
}

/// An alternation of `tasks`, without a name.
pub fn or_task<'a, T: State>(tasks: Vec<&'a dyn Task<T>>) -> (r: OrTask<'a, T>)
    ensures
        r.n@ == Seq::<char>::empty(),
        r.tasks == tasks,
{
    OrTask { n: String::new(), tasks }
}

/// A fan-out over `tasks`, without a name.
pub fn concurrent_task<'a, T: State>(tasks: Vec<&'a dyn Task<T>>) -> (r: ConcurrentTask<'a, T>)
    ensures
        r.n@ == Seq::<char>::empty(),
        r.tasks == tasks,
{
    ConcurrentTask { n: String::new(), tasks }
}

/// A branch on `condition` that runs `then_do` where it holds, without a name
/// and without a child for the other case.
pub fn if_task<'a, T: State>(condition: &'a dyn Condition<T>, then_do: &'a dyn Task<T>) -> (r:
    IfTask<'a, T>)
    ensures
        r.n@ == Seq::<char>::empty(),
        r.condition === condition,
        r.then_do === then_do,
        r.default_do.is_none(),
{
    IfTask { n: String::new(), condition, then_do, default_do: None }
}

/// A loop that repeats `task` while `condition` holds, without a name.
pub fn loop_task<'a, T: State>(condition: &'a dyn Condition<T>, task: &'a dyn Task<T>) -> (r:
    LoopTask<'a, T>)
    ensures
        r.n@ == Seq::<char>::empty(),
        r.condition === condition,
        r.task === task,
{
    LoopTask { n: String::new(), condition, task }
}

/// A promise that runs `init_task` and then the tasks in `other_tasks`,
/// without a name.
pub fn promise_task<'a, T: State>(
    init_task: &'a dyn Task<T>,
    other_tasks: Vec<Option<&'a dyn Task<T>>>,
) -> (r: PromiseTask<'a, T>)
    ensures
        r.n@ == Seq::<char>::empty(),
        r.init_task === init_task,
        r.other_tasks == other_tasks,
{
    PromiseTask { n: String::new(), init_task, other_tasks }
}

} // verus!

