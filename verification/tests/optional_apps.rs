use eos_installer::optional::{
    collect_apps, looked_up, menu, parse, prompt, read, remove, report, say_ignored,
    say_unreadable, Deletion, Fault, FileRemoval, ManifestError, Offer, OptionalApp, Removal,
    RemovalAction, RemovalEvent,
};
use eos_installer::toml_tree::Toml;

const SAMPLE: &str = r#"
[eos-notes]
title = "E-OS Notes"
summary = "Notes."
files = ["/usr/bin/eos-notes", "/usr/share/ui/apps/30_eos-notes"]

[eos-store]
title = "E-OS Store"
summary = "Applications."
files = ["/usr/bin/eos-store"]
"#;

fn apps() -> Vec<OptionalApp> {
    parse(SAMPLE).expect("sample parses")
}

#[test]
fn parse_fills_the_name_from_the_table_key() {
    let a = apps();
    assert_eq!(a.len(), 2);
    assert_eq!(a[0].name, "eos-notes");
    assert_eq!(a[0].title, "E-OS Notes");
    assert_eq!(a[1].name, "eos-store");
}

#[test]
fn parse_rejects_a_table_without_files() {
    assert!(parse("[x]\ntitle = \"X\"\nsummary = \"s\"\n").is_err());
}

#[test]
fn empty_answer_keeps_everything() {
    let a = apps();
    let declined = prompt(&a, "\n").declined;
    assert!(declined.is_empty(), "an empty line must not delete anything");
}

#[test]
fn end_of_input_keeps_everything() {
    // A serial line that closed, or a harness that answered nothing, must not mutilate the
    // system it is installing.
    let a = apps();
    let answer = prompt(&a, "");
    assert!(answer.declined.is_empty());
    assert_eq!(answer.reply, "\n");
}

#[test]
fn numbers_select_and_are_deduplicated_and_sorted() {
    let a = apps();
    let declined = prompt(&a, "2 1 2\n").declined;
    assert_eq!(declined, vec![0, 1]);
}

#[test]
fn out_of_range_and_nonsense_are_ignored_not_fatal() {
    let a = apps();
    let answer = prompt(&a, "9 banana 1\n");
    assert_eq!(answer.declined, vec![0]);
    let shown = menu(&a) + &answer.reply;
    assert!(
        shown.contains("ignoring"),
        "the person is told what was ignored"
    );
    assert_eq!(
        answer.reply,
        "  ignoring \"9\": not one of 1..2\n  ignoring \"banana\": not one of 1..2\n"
    );
}

/// Removes one file of those that are there, below the root `/mnt`, in which `link` leads to `/out`.
fn remove_one(present: &mut Vec<String>, target: &str) -> Deletion {
    let mut removal = FileRemoval::new(target.to_string());
    let mut event = RemovalEvent::Begin;
    loop {
        event = match removal.remove_file(event) {
            RemovalAction::Resolve { dir } => RemovalEvent::Resolved {
                root: b"/mnt".to_vec(),
                dir: if dir == "link" || dir.starts_with("link/") {
                    format!("/out{}", &dir[4..]).into_bytes()
                } else if dir.is_empty() {
                    b"/mnt".to_vec()
                } else {
                    format!("/mnt/{}", dir).into_bytes()
                },
            },
            RemovalAction::LookUp => RemovalEvent::LookedUp {
                found: present.iter().any(|f| f == target),
                not_found: true,
                reason: "no such file".to_string(),
            },
            RemovalAction::Delete => {
                present.retain(|f| f != target);
                RemovalEvent::Deleted
            }
            RemovalAction::Conclude(outcome) => return outcome,
        };
    }
}

/// Carries the steps out on a set of files that are there; returns the report.
fn carry_out(present: &mut Vec<String>, declined: &[&OptionalApp]) -> Removal {
    let steps = remove(declined);
    let mut outcomes = Vec::new();
    for step in &steps {
        outcomes.push(match &step.target {
            None => Deletion::Outside,
            Some(target) => remove_one(present, target),
        });
    }
    report(&steps, &outcomes)
}

#[test]
fn a_link_out_of_the_root_is_refused_rather_than_followed() {
    let a = app_with(&["/link/x", "/link/d/y", "/linked/z"]);
    let mut present: Vec<String> = ["link/x", "link/d/y", "linked/z"]
        .iter()
        .map(|s| s.to_string())
        .collect();
    let r = carry_out(&mut present, &[&a]);
    assert_eq!(r.removed, vec!["/linked/z".to_string()]);
    assert_eq!(
        r.failed,
        vec![
            ("/link/x".to_string(), "path escapes the target root".to_string()),
            ("/link/d/y".to_string(), "path escapes the target root".to_string()),
        ]
    );
    assert_eq!(present, vec!["link/x".to_string(), "link/d/y".to_string()]);
}

#[test]
fn the_directory_must_really_lie_below_the_root() {
    let below = |root: &str, dir: &str| {
        let mut removal = FileRemoval::new("d/f".to_string());
        assert_eq!(
            removal.remove_file(RemovalEvent::Begin),
            RemovalAction::Resolve { dir: "d".to_string() }
        );
        let action = removal.remove_file(RemovalEvent::Resolved {
            root: root.as_bytes().to_vec(),
            dir: dir.as_bytes().to_vec(),
        });
        match action {
            RemovalAction::LookUp => true,
            RemovalAction::Conclude(Deletion::Outside) => false,
            other => panic!("{:?}", other),
        }
    };
    for root in ["/mnt", "/"] {
        for dir in ["/", "/mnt", "/mnt/a", "/mnt2", "/mnt2/a", "/m", "/usr/mnt"] {
            let expected = std::path::Path::new(dir).starts_with(root);
            assert_eq!(below(root, dir), expected, "{} {}", root, dir);
        }
    }
}

#[test]
fn only_a_missing_file_is_absent() {
    let reason = || "denied".to_string();
    assert_eq!(looked_up(true, false, reason()), None);
    assert_eq!(looked_up(false, true, reason()), Some(Deletion::Absent));
    assert_eq!(looked_up(false, false, reason()), Some(Deletion::Failed(reason())));
    let mut removal = FileRemoval::new("f".to_string());
    assert_eq!(
        removal.remove_file(RemovalEvent::Begin),
        RemovalAction::Resolve { dir: "".to_string() }
    );
    assert_eq!(
        removal.remove_file(RemovalEvent::LookedUp {
            found: false,
            not_found: false,
            reason: reason(),
        }),
        RemovalAction::Conclude(Deletion::Failed(reason()))
    );
    let mut removal = FileRemoval::new("a/b//f".to_string());
    assert_eq!(
        removal.remove_file(RemovalEvent::Begin),
        RemovalAction::Resolve { dir: "a/b/".to_string() }
    );
    removal.remove_file(RemovalEvent::Resolved { root: b"/r".to_vec(), dir: b"/r/a/b".to_vec() });
    assert_eq!(
        removal.remove_file(RemovalEvent::LookedUp {
            found: true,
            not_found: false,
            reason: String::new(),
        }),
        RemovalAction::Delete
    );
    assert_eq!(
        removal.remove_file(RemovalEvent::NotDeleted("busy".to_string())),
        RemovalAction::Conclude(Deletion::Failed("busy".to_string()))
    );
}

#[test]
fn remove_deletes_what_is_there_and_tolerates_what_is_not() {
    let mut present = vec!["usr/bin/eos-notes".to_string()];
    // 30_eos-notes is deliberately not there: the "already gone" case.
    let a = apps();
    let r = carry_out(&mut present, &[&a[0]]);
    assert_eq!(r.removed, vec!["/usr/bin/eos-notes".to_string()]);
    assert_eq!(r.absent, vec!["/usr/share/ui/apps/30_eos-notes".to_string()]);
    assert!(r.is_clean(), "a missing file is not a failure");
    assert!(!present.contains(&"usr/bin/eos-notes".to_string()));
}

#[test]
fn remove_refuses_a_path_that_escapes_the_root() {
    let evil = OptionalApp {
        name: "evil".into(),
        title: "Evil".into(),
        summary: "s".into(),
        files: vec!["/../../etc/passwd".into()],
    };
    let mut present = vec!["../../etc/passwd".to_string(), "etc/passwd".to_string()];
    let r = carry_out(&mut present, &[&evil]);
    assert!(r.removed.is_empty());
    assert_eq!(r.failed.len(), 1);
    assert!(r.failed[0].1.contains("escapes"));
    assert_eq!(present.len(), 2);
}

fn app_with(files: &[&str]) -> OptionalApp {
    OptionalApp {
        name: "n".into(),
        title: "t".into(),
        summary: "s".into(),
        files: files.iter().map(|f| f.to_string()).collect(),
    }
}

#[test]
fn targets_are_relative_to_the_root() {
    let a = app_with(&["///usr//bin/x", "a/..b", "..", "/", "a/../b"]);
    let steps = remove(&[&a]);
    let targets: Vec<Option<String>> = steps.into_iter().map(|s| s.target).collect();
    assert_eq!(
        targets,
        vec![
            Some("usr//bin/x".to_string()),
            Some("a/..b".to_string()),
            None,
            Some("".to_string()),
            None,
        ]
    );
}

#[test]
fn every_file_is_reported_once() {
    let a = app_with(&["/a", "/b"]);
    let b = app_with(&["/c", "/../d"]);
    let steps = remove(&[&a, &b]);
    let outcomes = vec![
        Deletion::Removed,
        Deletion::Failed("busy".to_string()),
        Deletion::Absent,
        Deletion::Removed,
    ];
    let r = report(&steps, &outcomes);
    assert_eq!(r.removed, vec!["/a".to_string()]);
    assert_eq!(r.absent, vec!["/c".to_string()]);
    assert_eq!(
        r.failed,
        vec![
            ("/b".to_string(), "busy".to_string()),
            ("/../d".to_string(), "path escapes the target root".to_string()),
        ]
    );
    assert!(!r.is_clean());
    assert_eq!(
        Removal::default(),
        Removal { removed: Vec::new(), absent: Vec::new(), failed: Vec::new() }
    );
    assert!(Removal::default().is_clean());
}

#[test]
fn applications_come_in_the_order_of_their_names() {
    let text = "[b]\ntitle=\"B\"\nsummary=\"s\"\nfiles=[]\n[a]\ntitle=\"A\"\nsummary=\"s\"\nfiles=[\"/x\"]\nextra=1\n";
    let a = parse(text).unwrap();
    assert_eq!(a[0].name, "a");
    assert_eq!(a[0].files, vec!["/x".to_string()]);
    assert_eq!(a[1].name, "b");
    assert!(a[1].files.is_empty());
}

#[test]
fn an_array_of_three_is_an_application_too() {
    let a = parse("x = [\"T\", \"S\", [\"/f\"]]\n").unwrap();
    assert_eq!(a[0].title, "T");
    assert_eq!(a[0].summary, "S");
    assert_eq!(a[0].files, vec!["/f".to_string()]);
    assert_eq!(a[0].name, "x");
}

fn fault_of(text: &str) -> (String, Fault) {
    match parse(text) {
        Err(ManifestError::Entry(key, fault)) => (key, fault),
        other => panic!("{:?}", other),
    }
}

#[test]
fn each_fault_names_its_entry() {
    assert_eq!(fault_of("x = 1\n"), ("x".to_string(), Fault::NotATable));
    assert_eq!(fault_of("x = \"s\"\n"), ("x".to_string(), Fault::NotATable));
    assert_eq!(
        fault_of("[x]\nsummary=\"s\"\nfiles=[]\n"),
        ("x".to_string(), Fault::Title)
    );
    assert_eq!(
        fault_of("[x]\ntitle=1\nsummary=\"s\"\nfiles=[]\n"),
        ("x".to_string(), Fault::Title)
    );
    assert_eq!(
        fault_of("[x]\ntitle=\"t\"\nfiles=[]\n"),
        ("x".to_string(), Fault::Summary)
    );
    assert_eq!(
        fault_of("[x]\ntitle=\"t\"\nsummary=\"s\"\nfiles=[1]\n"),
        ("x".to_string(), Fault::Files)
    );
    assert_eq!(
        fault_of("[x]\ntitle=\"t\"\nsummary=\"s\"\nfiles=\"/f\"\n"),
        ("x".to_string(), Fault::Files)
    );
    assert_eq!(Fault::NotATable.describe(), "not a table");
    assert_eq!(Fault::Title.describe(), "no usable `title`");
    assert_eq!(Fault::Summary.describe(), "no usable `summary`");
    assert_eq!(Fault::Files.describe(), "no usable `files`");
}

#[test]
fn what_is_no_toml_is_a_syntax_error() {
    assert!(matches!(parse("[x"), Err(ManifestError::Syntax(_))));
    assert!(matches!(parse("a = 1\na = 2\n"), Err(ManifestError::Syntax(_))));
}

#[test]
fn entries_are_collected_in_their_order() {
    let entries = vec![
        (
            "z".to_string(),
            Toml::Table(vec![
                ("files".to_string(), Toml::List(vec![Toml::Text("/z".to_string())])),
                ("summary".to_string(), Toml::Text("S".to_string())),
                ("title".to_string(), Toml::Text("T".to_string())),
            ]),
        ),
        ("a".to_string(), Toml::Other),
    ];
    match collect_apps(&entries) {
        Err(ManifestError::Entry(key, fault)) => {
            assert_eq!(key, "a");
            assert_eq!(fault, Fault::NotATable);
        }
        other => panic!("{:?}", other),
    }
    let apps = collect_apps(&vec![entry_z()]).unwrap();
    assert_eq!(apps[0].name, "z");
    assert_eq!(apps[0].files, vec!["/z".to_string()]);
}

fn entry_z() -> (String, Toml) {
    (
        "z".to_string(),
        Toml::List(vec![
            Toml::Text("T".to_string()),
            Toml::Text("S".to_string()),
            Toml::List(vec![Toml::Text("/z".to_string())]),
        ]),
    )
}

#[test]
fn a_manifest_offers_a_choice_or_nothing() {
    assert!(matches!(read(None), Offer::Nothing));
    assert!(matches!(read(Some("")), Offer::Nothing));
    match read(Some(SAMPLE)) {
        Offer::Apps(a) => assert_eq!(a, apps()),
        other => panic!("{:?}", other),
    }
    assert!(matches!(read(Some("[x")), Offer::Unreadable(ManifestError::Syntax(_))));
    assert!(matches!(read(Some("x = 1")), Offer::Unreadable(ManifestError::Entry(_, _))));
    assert_eq!(
        say_unreadable("/m", "why"),
        "optional apps: /m is not readable (why); offering no choice"
    );
}

#[test]
fn the_menu_numbers_the_applications() {
    assert_eq!(
        menu(&apps()),
        "\nOptional applications. All are installed unless you say otherwise.\n  1. E-OS Notes - Notes.\n  2. E-OS Store - Applications.\nNumbers to LEAVE OUT, separated by spaces (empty = keep all): "
    );
}

#[test]
fn answers_at_the_edges() {
    let a = apps();
    assert_eq!(prompt(&a, " \t \n").declined, Vec::<usize>::new());
    assert_eq!(prompt(&a, " \t \n").reply, "");
    assert_eq!(prompt(&a, "+2 01\n").declined, vec![0, 1]);
    assert_eq!(prompt(&a, "0 3 -1 2x 99999999999999999999999 \u{2003}2").declined, vec![1]);
    assert_eq!(
        prompt(&a, "it's\u{7}").reply,
        say_ignored(&format!("{:?}", "it's\u{7}"), 2)
    );
    assert_eq!(prompt(&[], "1").reply, "  ignoring \"1\": not one of 1..0\n");
}

#[test]
fn a_second_removal_finds_every_file_absent() {
    let a = apps();
    let mut present = vec!["usr/bin/eos-notes".to_string(), "other".to_string()];
    let declined = [&a[0], &a[1]];
    let first = carry_out(&mut present, &declined);
    assert!(first.is_clean());
    assert_eq!(first.removed, vec!["/usr/bin/eos-notes".to_string()]);
    assert_eq!(present, vec!["other".to_string()]);
    let second = carry_out(&mut present, &declined);
    assert!(second.removed.is_empty());
    assert!(second.failed.is_empty());
    assert_eq!(
        second.absent,
        vec![
            "/usr/bin/eos-notes".to_string(),
            "/usr/share/ui/apps/30_eos-notes".to_string(),
            "/usr/bin/eos-store".to_string(),
        ]
    );
    assert_eq!(present, vec!["other".to_string()]);
}

#[test]
fn the_key_that_marks_dates_is_ignored_like_any_other() {
    let text = "[x]\n\"$__toml_private_datetime\" = \"no date\"\ntitle=\"T\"\nsummary=\"S\"\nfiles=[\"/f\"]\n";
    let a = parse(text).unwrap();
    assert_eq!(a[0].name, "x");
    assert_eq!(a[0].title, "T");
    assert_eq!(a[0].summary, "S");
    assert_eq!(a[0].files, vec!["/f".to_string()]);
    assert_eq!(fault_of("x = 1979-05-27\n"), ("x".to_string(), Fault::Title));
}
