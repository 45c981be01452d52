use repo_manager::locator::Locator;
use repo_manager::repair::{
    RepairRelationship, RepairReport, RepairRepositoryFormat, RepairRepositoryFormatStatus,
    RepairStalePath, RepairStalePathStatus, RepairStatus,
};
use repo_manager::repair_plan::{
    format_repair_plan, parse_repair_plan, RepairOperation, RepairOperationKind,
};
use repo_manager::repair_text::format_repair_report;

fn test_repair_operation(id: usize, summary: &str) -> RepairOperation {
    RepairOperation {
        id,
        summary: summary.to_string(),
        kind: RepairOperationKind::PruneStale(RepairStalePath {
            repo_id: id as i64,
            locator: Locator::parse("example.com/repo").unwrap(),
            path: "/tmp/repo".to_string(),
            status: RepairStalePathStatus::NeedsPrune,
            reasons: Vec::new(),
            blocking_dependents: Vec::new(),
        }),
    }
}

#[test]
fn repair_plan_parser_accepts_pick_drop_and_deleted_lines() {
    let operations = vec![
        test_repair_operation(1, "one"),
        test_repair_operation(2, "two"),
        test_repair_operation(3, "three"),
    ];

    let selected = parse_repair_plan(
        "# comment\npick 1 one\ndrop 2 two\np 3 three\n",
        &operations,
    )
    .unwrap();

    assert!(selected.contains(&1));
    assert!(!selected.contains(&2));
    assert!(selected.contains(&3));
    assert_eq!(selected.len(), 2);
    assert!(parse_repair_plan("pick 4 unknown\n", &operations).is_err());
    assert!(parse_repair_plan("pick 1 one\npick 1 duplicate\n", &operations).is_err());
}

#[test]
fn repair_plan_formatter_uses_one_line_per_operation() {
    let operations = vec![
        test_repair_operation(1, "one"),
        test_repair_operation(2, "two"),
    ];

    let text = format_repair_plan(&operations);
    let operation_lines = text
        .lines()
        .filter(|line| line.starts_with("pick "))
        .collect::<Vec<_>>();

    assert_eq!(operation_lines, vec!["pick 1 one", "pick 2 two"]);
    assert!(!text.contains("#   path:"));
    assert!(!text.contains("#   reason:"));
    assert!(!text.contains("#   locator(s):"));
}

#[test]
fn repair_report_output_numbers_and_groups_redundant_format_issues() {
    let shared_path = "/tmp/clones/github.com/upstream/project".to_string();
    let report = RepairReport {
        action: "check",
        check: true,
        stale_paths: vec![RepairStalePath {
            repo_id: 1,
            locator: Locator::parse("example.com/missing").unwrap(),
            path: "/tmp/clones/example.com/missing".to_string(),
            status: RepairStalePathStatus::NeedsPrune,
            reasons: vec!["recorded checkout path does not exist".to_string()],
            blocking_dependents: Vec::new(),
        }],
        repository_formats: vec![
            RepairRepositoryFormat {
                repo_id: 2,
                locator: Locator::parse("github.com/upstream/project").unwrap(),
                path: shared_path.clone(),
                status: RepairRepositoryFormatStatus::NeedsBareConversion,
                reasons: vec![
                    "clone-as-bare is enabled but this managed clone-root repository is non-bare"
                        .to_string(),
                ],
            },
            RepairRepositoryFormat {
                repo_id: 3,
                locator: Locator::parse("github.com/fork/project").unwrap(),
                path: shared_path,
                status: RepairRepositoryFormatStatus::NeedsBareConversion,
                reasons: vec![
                    "clone-as-bare is enabled but this managed clone-root repository is non-bare"
                        .to_string(),
                ],
            },
        ],
        untracked_checkouts: Vec::new(),
        relationships: vec![RepairRelationship {
            relationship: "fork".to_string(),
            dependent_locator: Locator::parse("github.com/fork/project").unwrap(),
            controlling_locator: Locator::parse("github.com/upstream/project").unwrap(),
            dependent_path: "/tmp/clones/github.com/fork/project".to_string(),
            controlling_path: "/tmp/clones/github.com/upstream/project".to_string(),
            status: RepairStatus::NeedsRepair,
            reasons: vec![
                "canonical checkout is non-bare but clone-as-bare is enabled: /tmp/clones/github.com/upstream/project"
                    .to_string(),
                "fork checkout is non-bare but clone-as-bare is enabled: /tmp/clones/github.com/fork/project"
                    .to_string(),
                "fork branch has no upstream, expected `fork-github.com-fork-project/main`"
                    .to_string(),
            ],
            shared_git_dir: None,
        }],
        skipped: Vec::new(),
    };

    let text = format_repair_report(&report);

    assert!(text.contains("[1] needs prune: example.com/missing"));
    assert!(text.contains("[2] needs bare conversion: /tmp/clones/github.com/upstream/project"));
    assert!(text.contains("locator(s): github.com/upstream/project, github.com/fork/project"));
    assert!(text
        .contains("[3] needs repair: fork github.com/fork/project -> github.com/upstream/project"));
    assert!(
        text.contains("canonical and fork repositories are non-bare while clone-as-bare is enabled")
    );
    assert_eq!(
        text.matches("managed clone-root repository is non-bare")
            .count(),
        0
    );
}
