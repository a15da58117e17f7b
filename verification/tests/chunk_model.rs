use stk::chunk::{ChunkKind, Classifier, Priority};

#[test]
fn priority_ordering_places_p0_first() {
    let mut priorities = vec![Priority::P3, Priority::P0, Priority::P5, Priority::P1];
    priorities.sort();
    assert_eq!(
        priorities,
        vec![Priority::P0, Priority::P1, Priority::P3, Priority::P5]
    );
}

#[test]
fn each_classifier_dispatches_to_its_own_rules() {
    assert_eq!(
        Classifier::Generic.classify("error: boom"),
        stk::scoring::relevance::classify("error: boom")
    );
    assert_eq!(
        Classifier::Cargo.classify("error[E0308]: mismatched types"),
        stk::specialists::cargo::classify("error[E0308]: mismatched types")
    );
    assert_eq!(
        Classifier::Git.classify("diff --git a/x b/x"),
        stk::specialists::git::classify("diff --git a/x b/x")
    );
    assert_eq!(Classifier::Generic.classify("error: boom").0, ChunkKind::Error);
}
