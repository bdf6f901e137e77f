use std::cell::Cell;

use taskflow::taskflow::{
    concurrent_task, if_task, join_results, loop_task, new_task, or_task, promise_task,
    sequence_task, Condition, Error, State, Task, WithName,
};

#[derive(Debug)]
struct TestState {
    num: i32,
}

impl State for TestState {
    fn merge(&self, _b: &TestState) -> TestState {
        TestState { num: self.num }
    }

    // What `merge` computes, for proofs; never run.
    fn merged(&self, b: &TestState) -> TestState {
        self.merge(b)
    }

    // A clone equals what it was cloned from, for proofs; never run.
    fn clone_is_faithful(_a: TestState, _b: TestState) {}
}

impl Clone for TestState {
    fn clone(&self) -> Self {
        TestState { num: self.num }
    }
}

/// A state that remembers the value it started from, so that two results of
/// independent paths can be merged by adding up what each path changed.
#[derive(Debug, Clone, PartialEq)]
struct Delta {
    base: i64,
    value: i64,
}

impl State for Delta {
    fn merge(&self, b: &Delta) -> Delta {
        Delta { base: self.base, value: self.base + (self.value - self.base) + (b.value - b.base) }
    }

    // What `merge` computes, for proofs; never run.
    fn merged(&self, b: &Delta) -> Delta {
        self.merge(b)
    }

    // A clone equals what it was cloned from, for proofs; never run.
    fn clone_is_faithful(_a: Delta, _b: Delta) {}
}

/// A state whose merge keeps the order in which states were merged.
#[derive(Debug, Clone, PartialEq)]
struct Trace {
    text: String,
}

impl State for Trace {
    fn merge(&self, b: &Trace) -> Trace {
        Trace { text: format!("({}+{})", self.text, b.text) }
    }

    // What `merge` computes, for proofs; never run.
    fn merged(&self, b: &Trace) -> Trace {
        self.merge(b)
    }

    // A clone equals what it was cloned from, for proofs; never run.
    fn clone_is_faithful(_a: Trace, _b: Trace) {}
}

struct Below {
    label: String,
    limit: i32,
}

impl Condition<TestState> for Below {
    fn name(&self) -> &str {
        &self.label
    }

    fn execute(&self, state: TestState) -> Result<bool, Error> {
        Ok(state.num < self.limit)
    }

    // What `execute` returns, for proofs; never run.
    fn verdict(&self, state: TestState) -> Option<Result<bool, Error>> {
        Some(self.execute(state))
    }

    // The name, for proofs; never run.
    fn label(&self) -> vstd::seq::Seq<char> {
        vstd::seq::Seq::empty()
    }
}

struct Broken;

impl Condition<TestState> for Broken {
    fn name(&self) -> &str {
        "broken"
    }

    fn execute(&self, _state: TestState) -> Result<bool, Error> {
        Err(Error::TaskFailed { task: "broken".to_string(), cause: "cannot tell".to_string() })
    }

    // What `execute` returns, for proofs; never run.
    fn verdict(&self, state: TestState) -> Option<Result<bool, Error>> {
        Some(self.execute(state))
    }

    // The name, for proofs; never run.
    fn label(&self) -> vstd::seq::Seq<char> {
        vstd::seq::Seq::empty()
    }
}

fn plus(k: i32) -> impl Fn(TestState) -> Result<TestState, Error> {
    move |a: TestState| Ok(TestState { num: a.num + k })
}

fn fail(a: TestState) -> Result<TestState, Error> {
    Err(Error::TaskFailed { task: "fail".to_string(), cause: format!("at {}", a.num) })
}

#[test]
fn test_sequence() {
    let task1 = new_task("task1", &|a: TestState| -> Result<TestState, Error> {
        Ok(TestState { num: a.num + 1 })
    });
    let task2 = new_task("task1", &|a: TestState| -> Result<TestState, Error> {
        Ok(TestState { num: a.num + 2 })
    });
    let task3 = new_task("task1", &|a: TestState| -> Result<TestState, Error> {
        Ok(TestState { num: a.num + 3 })
    });
    let seq_task = sequence_task(vec![&task1, &task2, &task3]).with_name("seq_task");
    let res = seq_task.execute(TestState { num: 100 });
    println!("{:?}", res);
    assert_eq!(res.unwrap().num, 106);
    assert_eq!(seq_task.name(), "seq_task");
}

#[test]
fn test_or() {
    let task1 = new_task("task1", &|a: TestState| -> Result<TestState, Error> {
        Ok(TestState { num: a.num + 1 })
    });
    let task2 = new_task("task1", &|a: TestState| -> Result<TestState, Error> {
        Ok(TestState { num: a.num + 2 })
    });
    let task3 = new_task("task1", &|a: TestState| -> Result<TestState, Error> {
        Ok(TestState { num: a.num + 3 })
    });
    let or_task = or_task(vec![&task1, &task2, &task3]).with_name("or_task");
    let res = or_task.execute(TestState { num: 100 });
    println!("{:?}", res);
    assert_eq!(res.unwrap().num, 101);
    assert_eq!(or_task.name(), "or_task");
}

#[test]
fn leaf_delegates_to_its_function() {
    let double = |a: TestState| -> Result<TestState, Error> { Ok(TestState { num: a.num * 2 }) };
    let leaf = new_task("double", &double);
    assert_eq!(leaf.name(), "double");
    assert_eq!(leaf.execute(TestState { num: 21 }).unwrap().num, 42);
}

#[test]
fn leaf_passes_a_failure_on_unchanged() {
    let leaf = new_task("fail", &fail);
    match leaf.execute(TestState { num: 7 }) {
        Err(Error::TaskFailed { task, cause }) => {
            assert_eq!(task, "fail");
            assert_eq!(cause, "at 7");
        }
        other => panic!("unexpected result: {:?}", other),
    }
}

#[test]
fn new_nodes_have_an_empty_name() {
    let f = plus(1);
    let leaf = new_task("leaf", &f);
    let cond = Below { label: "below".to_string(), limit: 3 };
    assert_eq!(sequence_task::<TestState>(vec![]).name(), "");
    assert_eq!(or_task::<TestState>(vec![]).name(), "");
    assert_eq!(concurrent_task::<TestState>(vec![]).name(), "");
    assert_eq!(if_task(&cond, &leaf).name(), "");
    assert_eq!(loop_task(&cond, &leaf).name(), "");
    assert_eq!(promise_task(&leaf, vec![]).name(), "");
    assert_eq!(cond.name(), "below");
}

#[test]
fn with_name_sets_the_name_and_nothing_else() {
    let f = plus(1);
    let leaf = new_task("leaf", &f);
    let cond = Below { label: "below".to_string(), limit: 3 };
    let c = concurrent_task(vec![&leaf as &dyn Task<TestState>]).with_name("fan");
    assert_eq!(c.name(), "fan");
    assert_eq!(c.execute(TestState { num: 1 }).unwrap().num, 2);
    let i = if_task(&cond, &leaf).with_name("branch");
    assert_eq!(i.name(), "branch");
    assert_eq!(i.execute(TestState { num: 1 }).unwrap().num, 2);
    let l = loop_task(&cond, &leaf).with_name("again");
    assert_eq!(l.name(), "again");
    assert_eq!(l.execute(TestState { num: 1 }).unwrap().num, 3);
    let p = promise_task(&leaf, vec![Some(&leaf as &dyn Task<TestState>)]).with_name("later");
    assert_eq!(p.name(), "later");
    assert_eq!(p.execute(TestState { num: 1 }).unwrap().num, 3);
}

#[test]
fn empty_sequence_returns_its_input() {
    let seq = sequence_task::<TestState>(vec![]);
    assert_eq!(seq.execute(TestState { num: 5 }).unwrap().num, 5);
}

#[test]
fn sequence_stops_at_the_first_failure() {
    let runs = Cell::new(0);
    let counted = |a: TestState| -> Result<TestState, Error> {
        runs.set(runs.get() + 1);
        Ok(a)
    };
    let first = new_task("first", &counted);
    let second = new_task("fail", &fail);
    let third = new_task("third", &counted);
    let seq = sequence_task(vec![&first, &second, &third]);
    let res = seq.execute(TestState { num: 9 });
    assert!(matches!(res, Err(Error::TaskFailed { .. })));
    assert_eq!(runs.get(), 1);
}

#[test]
fn nested_sequence_equals_flat_sequence() {
    let (fa, fb, fc) = (plus(1), plus(20), plus(300));
    let a = new_task("a", &fa);
    let b = new_task("b", &fb);
    let c = new_task("c", &fc);
    let flat = sequence_task(vec![&a, &b, &c]);
    let inner = sequence_task(vec![&a, &b]);
    let nested = sequence_task(vec![&inner, &c]);
    let x = flat.execute(TestState { num: 4 }).unwrap().num;
    let y = nested.execute(TestState { num: 4 }).unwrap().num;
    assert_eq!(x, 325);
    assert_eq!(y, 325);
}

#[test]
fn nested_sequence_fails_as_flat_sequence() {
    let fa = plus(1);
    let a = new_task("a", &fa);
    let b = new_task("b", &fail);
    let flat = sequence_task(vec![&a, &b, &a]);
    let inner = sequence_task(vec![&a, &b]);
    let nested = sequence_task(vec![&inner, &a]);
    for tree in [&flat, &nested] {
        match tree.execute(TestState { num: 4 }) {
            Err(Error::TaskFailed { cause, .. }) => assert_eq!(cause, "at 5"),
            other => panic!("unexpected result: {:?}", other),
        }
    }
}

#[test]
fn or_returns_the_first_success() {
    let f = plus(5);
    let bad = new_task("bad", &fail);
    let ok = new_task("ok", &f);
    let or = or_task(vec![&bad, &bad, &ok]);
    let res = or.execute(TestState { num: 10 }).unwrap();
    assert_eq!(res.num, ok.execute(TestState { num: 10 }).unwrap().num);
    assert_eq!(res.num, 15);
}

#[test]
fn or_gives_each_child_the_input() {
    let seen = Cell::new(0);
    let spoil = |a: TestState| -> Result<TestState, Error> {
        seen.set(a.num);
        Err(Error::NoResult)
    };
    let f = plus(1);
    let first = new_task("spoil", &spoil);
    let second = new_task("ok", &f);
    let or = or_task(vec![&first, &second]);
    assert_eq!(or.execute(TestState { num: 10 }).unwrap().num, 11);
    assert_eq!(seen.get(), 10);
}

#[test]
fn or_fails_with_no_result_when_all_fail() {
    let bad = new_task("bad", &fail);
    let or = or_task(vec![&bad, &bad, &bad]);
    assert!(matches!(or.execute(TestState { num: 10 }), Err(Error::NoResult)));
    let none = or_task::<TestState>(vec![]);
    assert!(matches!(none.execute(TestState { num: 10 }), Err(Error::NoResult)));
}

#[test]
fn if_runs_then_on_true() {
    let (ft, fd) = (plus(1), plus(100));
    let then_do = new_task("then", &ft);
    let default_do = new_task("default", &fd);
    let cond = Below { label: "below".to_string(), limit: 3 };
    let mut branch = if_task(&cond, &then_do);
    branch.with_default(&default_do);
    let res = branch.execute(TestState { num: 0 }).unwrap();
    assert_eq!(res.num, then_do.execute(TestState { num: 0 }).unwrap().num);
    assert_eq!(res.num, 1);
}

#[test]
fn if_runs_default_on_false() {
    let (ft, fd) = (plus(1), plus(100));
    let then_do = new_task("then", &ft);
    let default_do = new_task("default", &fd);
    let cond = Below { label: "below".to_string(), limit: 3 };
    let mut branch = if_task(&cond, &then_do);
    let same = branch.with_default(&default_do);
    assert_eq!(same.execute(TestState { num: 3 }).unwrap().num, 103);
    assert_eq!(branch.execute(TestState { num: 3 }).unwrap().num, 103);
}

#[test]
fn if_without_default_fails_on_false() {
    let ft = plus(1);
    let then_do = new_task("then", &ft);
    let cond = Below { label: "below".to_string(), limit: 3 };
    let branch = if_task(&cond, &then_do);
    assert!(matches!(branch.execute(TestState { num: 3 }), Err(Error::NoResult)));
}

#[test]
fn if_passes_on_a_failure_of_its_condition() {
    let ft = plus(1);
    let then_do = new_task("then", &ft);
    let branch = if_task(&Broken, &then_do);
    match branch.execute(TestState { num: 0 }) {
        Err(Error::TaskFailed { task, cause }) => {
            assert_eq!(task, "broken");
            assert_eq!(cause, "cannot tell");
        }
        other => panic!("unexpected result: {:?}", other),
    }
}

#[test]
fn loop_counts_to_three() {
    let runs = Cell::new(0);
    let increment = |a: TestState| -> Result<TestState, Error> {
        runs.set(runs.get() + 1);
        Ok(TestState { num: a.num + 1 })
    };
    let body = new_task("increment", &increment);
    let cond = Below { label: "count < 3".to_string(), limit: 3 };
    let repeat = loop_task(&cond, &body);
    assert_eq!(repeat.execute(TestState { num: 0 }).unwrap().num, 3);
    assert_eq!(runs.get(), 3);
}

#[test]
fn loop_may_run_zero_times() {
    let body = new_task("fail", &fail);
    let cond = Below { label: "count < 3".to_string(), limit: 3 };
    let repeat = loop_task(&cond, &body);
    assert_eq!(repeat.execute(TestState { num: 8 }).unwrap().num, 8);
}

#[test]
fn loop_stops_at_a_failure() {
    let body = new_task("fail", &fail);
    let cond = Below { label: "count < 3".to_string(), limit: 3 };
    let repeat = loop_task(&cond, &body);
    assert!(matches!(repeat.execute(TestState { num: 0 }), Err(Error::TaskFailed { .. })));
    let f = plus(1);
    let fine = new_task("fine", &f);
    let broken = loop_task(&Broken, &fine);
    assert!(matches!(broken.execute(TestState { num: 0 }), Err(Error::TaskFailed { .. })));
}

#[test]
fn promise_runs_the_slots_that_are_filled() {
    let seed = |_a: TestState| -> Result<TestState, Error> { Ok(TestState { num: 0 }) };
    let (f5, f2) = (plus(5), plus(2));
    let seed_to_0 = new_task("seed", &seed);
    let add5 = new_task("+5", &f5);
    let add2 = new_task("+2", &f2);
    let promise = promise_task(&seed_to_0, vec![None, Some(&add5), None, Some(&add2)]);
    assert_eq!(promise.execute(TestState { num: 100 }).unwrap().num, 7);
    assert_eq!(promise.execute(TestState { num: -3 }).unwrap().num, 7);
}

#[test]
fn promise_fails_with_the_first_failure() {
    let f5 = plus(5);
    let add5 = new_task("+5", &f5);
    let bad = new_task("bad", &fail);
    let late = promise_task(&add5, vec![Some(&add5), Some(&bad), Some(&add5)]);
    match late.execute(TestState { num: 0 }) {
        Err(Error::TaskFailed { cause, .. }) => assert_eq!(cause, "at 10"),
        other => panic!("unexpected result: {:?}", other),
    }
    let early = promise_task(&bad, vec![Some(&add5)]);
    match early.execute(TestState { num: 0 }) {
        Err(Error::TaskFailed { cause, .. }) => assert_eq!(cause, "at 0"),
        other => panic!("unexpected result: {:?}", other),
    }
}

#[test]
fn concurrent_adds_up_the_deltas() {
    let add3 = |a: Delta| -> Result<Delta, Error> { Ok(Delta { base: a.base, value: a.value + 3 }) };
    let add40 =
        |a: Delta| -> Result<Delta, Error> { Ok(Delta { base: a.base, value: a.value + 40 }) };
    let left = new_task("+3", &add3);
    let right = new_task("+40", &add40);
    let one_way = concurrent_task(vec![&left, &right]);
    let other_way = concurrent_task(vec![&right, &left]);
    let start = Delta { base: 100, value: 100 };
    assert_eq!(one_way.execute(start.clone()).unwrap(), Delta { base: 100, value: 143 });
    assert_eq!(other_way.execute(start).unwrap(), Delta { base: 100, value: 143 });
}

#[test]
fn concurrent_merges_in_declaration_order() {
    let mark = |c: &'static str| {
        move |_a: Trace| -> Result<Trace, Error> { Ok(Trace { text: c.to_string() }) }
    };
    let (fa, fb, fc) = (mark("a"), mark("b"), mark("c"));
    let a = new_task("a", &fa);
    let b = new_task("b", &fb);
    let c = new_task("c", &fc);
    let fan = concurrent_task(vec![&a, &b, &c]);
    let res = fan.execute(Trace { text: "in".to_string() }).unwrap();
    assert_eq!(res.text, "((a+b)+c)");
}

#[test]
fn concurrent_gives_each_child_the_input() {
    let (f1, f2) = (plus(1), plus(2));
    let a = new_task("a", &f1);
    let b = new_task("b", &f2);
    let fan = concurrent_task(vec![&a, &b]);
    assert_eq!(fan.execute(TestState { num: 10 }).unwrap().num, 11);
}

#[test]
fn concurrent_without_children_returns_its_input() {
    let fan = concurrent_task::<TestState>(vec![]);
    assert_eq!(fan.execute(TestState { num: 12 }).unwrap().num, 12);
}

#[test]
fn concurrent_fails_with_the_failure_of_a_child() {
    let f1 = plus(1);
    let a = new_task("a", &f1);
    let bad = new_task("bad", &fail);
    let fan = concurrent_task(vec![&a, &bad, &a]);
    match fan.execute(TestState { num: 10 }) {
        Err(Error::TaskFailed { task, cause }) => {
            assert_eq!(task, "fail");
            assert_eq!(cause, "at 10");
        }
        other => panic!("unexpected result: {:?}", other),
    }
}

#[test]
fn join_results_folds_from_the_left() {
    let t = |s: &str| Trace { text: s.to_string() };
    assert_eq!(join_results(t("in"), vec![]).unwrap(), t("in"));
    assert_eq!(join_results(t("in"), vec![Ok(t("a"))]).unwrap(), t("a"));
    assert_eq!(join_results(t("in"), vec![Ok(t("a")), Ok(t("b"))]).unwrap(), t("(a+b)"));
    assert_eq!(
        join_results(t("in"), vec![Ok(t("a")), Ok(t("b")), Ok(t("c")), Ok(t("d"))]).unwrap(),
        t("(((a+b)+c)+d)")
    );
}

#[test]
fn join_results_reports_the_first_failure() {
    let t = |s: &str| Trace { text: s.to_string() };
    let e = |s: &str| Error::TaskFailed { task: s.to_string(), cause: String::new() };
    match join_results(t("in"), vec![Ok(t("a")), Err(e("x")), Ok(t("b")), Err(e("y"))]) {
        Err(Error::TaskFailed { task, .. }) => assert_eq!(task, "x"),
        other => panic!("unexpected result: {:?}", other),
    }
    assert!(matches!(join_results(t("in"), vec![Err(Error::NoResult)]), Err(Error::NoResult)));
}

#[test]
fn combinators_nest() {
    let (f1, f10) = (plus(1), plus(10));
    let one = new_task("+1", &f1);
    let ten = new_task("+10", &f10);
    let bad = new_task("bad", &fail);
    let cond = Below { label: "below".to_string(), limit: 25 };
    let either = or_task(vec![&bad, &ten]);
    let again = loop_task(&cond, &either);
    let all = sequence_task(vec![&one, &again, &one]);
    assert_eq!(all.execute(TestState { num: 0 }).unwrap().num, 32);
}

#[test]
fn or_keeps_the_causes_of_failed_branches() {
    let f = plus(5);
    let bad = new_task("bad", &fail);
    let none = |_a: TestState| -> Result<TestState, Error> { Err(Error::NoResult) };
    let empty = new_task("empty", &none);
    let ok = new_task("ok", &f);

    let or = or_task(vec![&bad, &empty, &ok, &bad]);
    let (res, causes) = or.execute_with_causes(TestState { num: 10 });
    assert_eq!(res.unwrap().num, 15);
    assert_eq!(causes.len(), 2);
    match &causes[0] {
        Error::TaskFailed { task, cause } => {
            assert_eq!(task, "fail");
            assert_eq!(cause, "at 10");
        }
        other => panic!("unexpected cause: {:?}", other),
    }
    assert!(matches!(causes[1], Error::NoResult));

    let or = or_task(vec![&bad, &bad, &bad]);
    let (res, causes) = or.execute_with_causes(TestState { num: 10 });
    assert!(matches!(res, Err(Error::NoResult)));
    assert_eq!(causes.len(), 3);

    let or = or_task(vec![&ok, &bad]);
    let (res, causes) = or.execute_with_causes(TestState { num: 10 });
    assert_eq!(res.unwrap().num, 15);
    assert!(causes.is_empty());
}
