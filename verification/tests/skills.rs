use agent::skills::{
    check_metadata, explicit_names, format_skill, frontmatter, line_cost, lines_cost, prompt_lines,
    repository_skill_roots, sort_by_name, add_new_skills, SkillCatalog, SkillInfo,
};

fn skill(name: &str, description: &str) -> SkillInfo {
    SkillInfo {
        name: name.into(),
        description: description.into(),
        path: format!("/tmp/{name}/SKILL.md"),
        allow_implicit_invocation: true,
    }
}

#[test]
fn context_budget_shortens_descriptions_before_omitting_skills() {
    let skills = ["alpha", "beta"]
        .into_iter()
        .map(|name| skill(name, &"x".repeat(1_000)))
        .collect::<Vec<_>>();

    let (lines, shortened, omitted) = prompt_lines(&skills, 10_000);

    assert_eq!(lines.len(), 2);
    assert!(shortened);
    assert_eq!(omitted, 0);
    assert!(lines_cost(&lines) <= 200);
}

#[test]
fn tiny_budget_omits_lowest_precedence_skills() {
    let skills = vec![skill("alpha", "first"), skill("beta", "second"), skill("gamma", "third")];
    let (lines, shortened, omitted) = prompt_lines(&skills, 100);
    assert!(omitted > 0);
    assert!(lines_cost(&lines) <= 2);
    assert!(shortened || omitted > 0);
    let catalog = SkillCatalog::new(skills, vec![], 100);
    assert!(catalog.warnings.last().unwrap().starts_with("exceeded the 2% skills context budget"));
}

#[test]
fn line_cost_rounds_bytes_up_to_tokens() {
    assert_eq!(line_cost(""), 1);
    assert_eq!(line_cost("abc"), 1);
    assert_eq!(line_cost("abcd"), 2);
    assert_eq!(line_cost("é"), 1);
    assert_eq!(lines_cost(&vec!["abcd".into(), "abc".into()]), 3);
}

#[test]
fn skill_line_shows_policy_and_path() {
    let mut s = skill("alpha", "does things");
    assert_eq!(format_skill(&s, "does things"), "- $alpha: does things [implicit allowed] (/tmp/alpha/SKILL.md)");
    s.allow_implicit_invocation = false;
    assert_eq!(format_skill(&s, ""), "- $alpha: [explicit only] (/tmp/alpha/SKILL.md)");
}

#[test]
fn explicit_names_are_trimmed_words_after_a_dollar() {
    assert_eq!(explicit_names("use $same, then $other! and $ and $-x-"), vec!["same", "other", "-x-"]);
    assert!(explicit_names("no skills here").is_empty());
}

#[test]
fn validate_explicit_reports_the_first_unknown_skill() {
    let catalog = SkillCatalog::new(vec![skill("same", "d")], vec![], 200_000);
    assert!(catalog.validate_explicit("use $same").is_ok());
    let error = catalog.validate_explicit("use $missing and $gone").unwrap_err();
    assert_eq!(error.message(), "explicit skill `$missing` was not found or is invalid");
}

#[test]
fn frontmatter_is_between_the_dashes() {
    assert_eq!(frontmatter("p", "---\nname: a\n---\nbody").unwrap(), "name: a");
    assert_eq!(frontmatter("p", "no frontmatter").unwrap_err().message(), "p: missing YAML frontmatter");
    assert!(check_metadata("p", " ", "d").is_err());
    assert!(check_metadata("p", "n", "d").is_ok());
}

#[test]
fn nearest_repository_skill_wins() {
    let roots = repository_skill_roots(
        &vec!["/repo/a/b".into(), "/repo/a".into(), "/repo".into(), "/".into()],
        &vec![false, false, true, false],
    );
    assert_eq!(roots, ["/repo/a/b/.agents/skills", "/repo/a/.agents/skills", "/repo/.agents/skills"]);

    let mut catalog = vec![skill("same", "nearest")];
    let mut found = vec![skill("zeta", "z"), skill("same", "root")];
    sort_by_name(&mut found);
    assert_eq!(found[0].name, "same");
    add_new_skills(&mut catalog, &found);
    assert_eq!(catalog.len(), 2);
    assert_eq!(catalog[0].description, "nearest");
}
