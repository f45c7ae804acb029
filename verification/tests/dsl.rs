use game_of_life_sim::dsl::exprs::{
    alive, and, const_u32, equal, gt, gte, lt, lte, neighbors, or,
};
use game_of_life_sim::dsl::rulesets::conways_game_of_life;
use game_of_life_sim::dsl::statements::{if_then_else, set_result, void};

#[test]
fn const_compiles_to_literal_with_suffix() {
    assert_eq!(const_u32(0).to_shader(), "0u");
    assert_eq!(const_u32(7).to_shader(), "7u");
    assert_eq!(const_u32(42).to_shader(), "42u");
    assert_eq!(const_u32(100).to_shader(), "100u");
    assert_eq!(const_u32(4294967295).to_shader(), "4294967295u");
}

#[test]
fn leaves_compile_to_fixed_identifiers() {
    assert_eq!(alive().to_shader(), "is_alive");
    assert_eq!(neighbors().to_shader(), "num_neighbors");
}

#[test]
fn comparisons_compile_with_cast_and_parentheses() {
    assert_eq!(gt(neighbors(), const_u32(2)).to_shader(), "u32((num_neighbors) > (2u))");
    assert_eq!(gte(neighbors(), const_u32(2)).to_shader(), "u32((num_neighbors) >= (2u))");
    assert_eq!(lt(neighbors(), const_u32(2)).to_shader(), "u32((num_neighbors) < (2u))");
    assert_eq!(lte(neighbors(), const_u32(2)).to_shader(), "u32((num_neighbors) <= (2u))");
    assert_eq!(equal(neighbors(), const_u32(2)).to_shader(), "u32((num_neighbors) == (2u))");
}

#[test]
fn and_or_compile_to_bitwise_forms_only() {
    let a = equal(neighbors(), const_u32(2));
    let b = equal(neighbors(), const_u32(3));
    let and_text = and(a, b).to_shader();
    assert_eq!(
        and_text,
        "((u32((num_neighbors) == (2u))) & (u32((num_neighbors) == (3u))))"
    );
    assert!(!and_text.contains("&&"));
    assert!(!and_text.contains("||"));

    let c = equal(neighbors(), const_u32(2));
    let d = equal(neighbors(), const_u32(3));
    let or_text = or(c, d).to_shader();
    assert_eq!(
        or_text,
        "((u32((num_neighbors) == (2u))) | (u32((num_neighbors) == (3u))))"
    );
    assert!(!or_text.contains("&&"));
    assert!(!or_text.contains("||"));
}

#[test]
fn nested_trees_are_fully_parenthesized() {
    let tree = or(
        and(gt(neighbors(), const_u32(1)), lt(neighbors(), const_u32(4))),
        equal(alive(), const_u32(1)),
    );
    assert_eq!(
        tree.to_shader(),
        "((((u32((num_neighbors) > (1u))) & (u32((num_neighbors) < (4u))))) \
         | (u32((is_alive) == (1u))))"
    );
}

#[test]
fn deeply_nested_operands_keep_their_own_parentheses() {
    let tree = gt(and(alive(), neighbors()), const_u32(0));
    assert_eq!(
        tree.to_shader(),
        "u32((((is_alive) & (num_neighbors))) > (0u))"
    );
}

#[test]
fn void_compiles_to_empty_text() {
    assert_eq!(void().to_shader(), "");
}

#[test]
fn set_result_compiles_to_assignment() {
    assert_eq!(
        set_result(equal(neighbors(), const_u32(3))).to_shader(),
        "result = u32((num_neighbors) == (3u));"
    );
}

#[test]
fn if_then_else_always_prints_both_blocks() {
    let text = if_then_else(alive(), void(), void()).to_shader();
    assert_eq!(text, "if (is_alive) {  } else {  }");
    assert!(text.contains("if"));
    assert!(text.contains("else"));
}

#[test]
fn if_then_else_compiles_nested_statements() {
    let text = if_then_else(
        alive(),
        set_result(const_u32(1)),
        if_then_else(neighbors(), set_result(const_u32(0)), void()),
    )
    .to_shader();
    assert_eq!(
        text,
        "if (is_alive) { result = 1u; } else { \
         if (num_neighbors) { result = 0u; } else {  } }"
    );
}

#[test]
fn conway_ruleset_compiles_to_expected_rule_text() {
    let text = conways_game_of_life().to_shader();
    assert_eq!(
        text,
        "if (is_alive) { \
         result = ((u32((num_neighbors) == (2u))) | (u32((num_neighbors) == (3u)))); \
         } else { \
         result = u32((num_neighbors) == (3u)); \
         }"
    );
    assert!(!text.contains("&&"));
    assert!(!text.contains("||"));
}
