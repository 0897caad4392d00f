use ppl::syntax::precedence::PrecedenceGroups;

#[test]
fn default_groups_order_operators() {
    let groups = PrecedenceGroups::default();
    assert!(groups.has_greater_precedence("*", "+"));
    assert!(groups.has_greater_precedence("/", "-"));
    assert!(!groups.has_greater_precedence("+", "*"));
    assert!(groups.has_less_precedence("+", "*"));
    assert!(!groups.has_less_precedence("*", "+"));
}

#[test]
fn same_operator_is_left_associative() {
    let groups = PrecedenceGroups::default();
    assert!(groups.has_less_precedence("+", "+"));
    assert!(!groups.has_greater_precedence("+", "+"));
    // Different operators of one group bind neither tighter nor looser
    assert!(!groups.has_less_precedence("+", "-"));
    assert!(!groups.has_greater_precedence("+", "-"));
}

#[test]
fn unknown_operators_have_default_precedence() {
    let groups = PrecedenceGroups::default();
    assert!(groups.has_less_precedence("?", "+"));
    assert!(groups.has_greater_precedence("+", "?"));
    assert!(groups.has_less_precedence("?", "?"));
}
