use mununu_core::engine_isolate::{
    describe_status, read_child_verdict, Isolated, CHILD_GUARD_ENV, CHILD_VERB, ISOLATE_ENV,
};

#[test]
fn a_child_does_not_isolate_again() {
    assert_eq!(ISOLATE_ENV, "MUNUNU_ISOLATE_ENGINES");
    assert_eq!(CHILD_GUARD_ENV, "MUNUNU_ISOLATE_CHILD");
    assert_ne!(
        ISOLATE_ENV, CHILD_GUARD_ENV,
        "the request and the guard must be different vars, or a child inherits the request \
         and forks forever"
    );
}

#[test]
fn died_and_unavailable_are_distinct_outcomes() {
    let died = Isolated::Died("signal 11".into());
    let unavail = Isolated::Unavailable("cannot locate self".into());
    assert_ne!(died, unavail);
}

#[test]
fn a_child_that_prints_a_verdict_is_read_as_that_verdict() {
    assert_eq!(
        read_child_verdict("VERDICT holds\n", "", "engine child exited 0 with no verdict"),
        Isolated::Holds
    );
    assert_eq!(
        read_child_verdict("progress\nVERDICT violated\r\n", "", "x"),
        Isolated::Violated
    );
    assert_eq!(
        read_child_verdict("VERDICT abstained bit cap\n", "", "x"),
        Isolated::Abstained("bit cap".into()),
        "an abstention is a RESULT and must carry the engine's own reason"
    );
}

#[test]
fn the_last_verdict_line_wins() {
    assert_eq!(
        read_child_verdict("VERDICT holds\nnoise\nVERDICT violated", "", "x"),
        Isolated::Violated
    );
}

#[test]
fn a_child_that_exits_without_a_verdict_is_died() {
    let status = describe_status(None, Some(3));
    assert_eq!(status, "engine child exited 3 with no verdict");
    match read_child_verdict("", "one\ntwo\nthree\noops\n", &status) {
        Isolated::Died(why) => assert_eq!(
            why,
            "engine child exited 3 with no verdict — stderr: two | three | oops"
        ),
        other => panic!("expected Died, got {other:?}"),
    }
}

#[test]
fn a_child_killed_by_a_signal_is_read_as_died_not_as_a_verdict() {
    let status = describe_status(Some(11), None);
    assert_eq!(status, "engine child killed by signal 11");
    match read_child_verdict("VERDICT mystery\n", "", &status) {
        Isolated::Died(why) => assert!(why.contains("signal")),
        other => panic!("a signalled child must be Died, got {other:?}"),
    }
    assert_eq!(describe_status(None, None), "engine child ended with no status");
    assert_eq!(
        describe_status(None, Some(-2)),
        "engine child exited -2 with no verdict"
    );
}

#[test]
fn the_child_verb_is_stable() {
    assert_eq!(CHILD_VERB, "internal-engine-eval");
}
