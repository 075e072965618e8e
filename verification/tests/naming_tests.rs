use workforest_core::config::{default_tool_index, default_tools, RepoConfig};
use workforest_core::naming::{
    branch_name, generate_repo_name, generate_repo_name_with_suffix, generate_unique_agent_name,
    to_kebab, worktree_dir_name,
};

fn repo_named(name: &str) -> RepoConfig {
    RepoConfig {
        name: name.to_string(),
        path: "/tmp".to_string(),
        tools: Vec::new(),
        default_tool: String::new(),
    }
}

#[test]
fn repo_name_uses_base_when_unique() {
    let repos = vec![repo_named("other")];
    let suffixes = vec!["suffix".to_string()];
    let name = generate_repo_name_with_suffix("demo", &repos, &suffixes);
    assert_eq!(name.unwrap(), "demo");
}

#[test]
fn repo_name_uses_suffix_on_collision() {
    let repos = vec![repo_named("demo")];
    let suffixes = vec!["alpha".to_string()];
    let name = generate_repo_name_with_suffix("demo", &repos, &suffixes);
    assert_eq!(name.unwrap(), "demo-alpha");
}

#[test]
fn repo_name_rerolls_on_suffix_collision() {
    let repos = vec![repo_named("demo"), repo_named("demo-alpha")];
    let suffixes = vec!["alpha".to_string(), "bravo".to_string()];
    let name = generate_repo_name_with_suffix("demo", &repos, &suffixes);
    assert_eq!(name.unwrap(), "demo-bravo");
}

#[test]
fn repo_name_none_when_all_suffixes_collide() {
    let repos = vec![repo_named("demo"), repo_named("demo-alpha")];
    let suffixes = vec!["alpha".to_string()];
    let name = generate_repo_name_with_suffix("demo", &repos, &suffixes);
    assert!(name.is_none());
}

#[test]
fn kebab_cases_agent_names() {
    assert_eq!(to_kebab("Wild_Cat"), "wild-cat");
    assert_eq!(to_kebab("Blue Fox"), "blue-fox");
}

#[test]
fn kebab_trims_and_is_idempotent() {
    assert_eq!(to_kebab("  Wild_Cat  "), "wild-cat");
    let once = to_kebab(" A_b C ");
    assert_eq!(to_kebab(&once), once);
    assert_eq!(to_kebab(""), "");
}

#[test]
fn worktree_and_branch_names_derive_from_kebab() {
    assert_eq!(worktree_dir_name("repo", "Wild_Cat"), "repo-wild-cat");
    assert_eq!(branch_name("Blue Fox"), "agent/blue-fox");
}

#[test]
fn random_repo_name_avoids_collisions() {
    let name = generate_repo_name("demo", &vec![repo_named("other")]);
    assert_eq!(name.unwrap(), "demo");

    let repos = vec![repo_named("demo")];
    let drawn = generate_repo_name("demo", &repos).unwrap();
    assert!(drawn.starts_with("demo-"));
    assert_ne!(drawn, "demo");
}

#[test]
fn random_agent_name_is_fresh() {
    let existing = vec!["taken".to_string()];
    let name = generate_unique_agent_name(&existing).unwrap();
    assert!(!name.is_empty());
    assert_ne!(name, "taken");
}

#[test]
fn default_tools_and_default_index() {
    let tools = default_tools();
    assert_eq!(tools, vec!["opencode", "aider", "codex"]);

    let repo = RepoConfig {
        name: "r".to_string(),
        path: "/tmp".to_string(),
        tools,
        default_tool: "codex".to_string(),
    };
    assert_eq!(default_tool_index(&repo), 2);

    let missing = RepoConfig {
        name: "r".to_string(),
        path: "/tmp".to_string(),
        tools: default_tools(),
        default_tool: "unlisted".to_string(),
    };
    assert_eq!(default_tool_index(&missing), 0);
}
