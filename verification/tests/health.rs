use helix_term::config::ConfigLoadError;
use helix_term::health::{
    clipboard, column_width, find_language, fit, general, language, language_config, languages_all,
    languages_selection, origin_label, print_health, runtime_root_problem, selection_note,
    unknown_language, ActivePackage, Cell, Color, HealthSection, LanguageHealth, LanguageLookup,
    LanguageProbe, Origin, Probe, Resolved, RootProblem, RuntimeHealth, RuntimeRoot, ServerTool,
    Tool, TsFeature,
};

fn line(cells: &[Cell]) -> String {
    cells.iter().map(|cell| cell.text.as_str()).collect()
}

fn lines(rows: &[Vec<Cell>]) -> Vec<String> {
    rows.iter().map(|row| line(row)).collect()
}

#[test]
fn features_have_files_and_titles() {
    let files: Vec<&str> =
        TsFeature::all().iter().map(|feature| feature.runtime_filename()).collect();
    assert_eq!(
        files,
        vec!["highlights.scm", "textobjects.scm", "indents.scm", "tags.scm", "rainbows.scm"]
    );
    assert_eq!(TsFeature::AutoIndent.long_title(), "Auto Indent");
    assert_eq!(TsFeature::AutoIndent.short_title(), "Indent");
}

#[test]
fn texts_are_fitted_to_their_column() {
    assert_eq!(fit("rust", 8), "rust    ");
    assert_eq!(fit("rustic", 8), "rustic… ");
    assert_eq!(fit("rust-analyzer", 8), "rust-a… ");
    assert_eq!(fit("", 3), "   ");
    // No character is cut in two: the text is left as it is.
    assert_eq!(fit("aää", 4), "aää ");
    assert_eq!(fit("ää", 4), "ä…  ");
    assert_eq!(column_width(80), 8);
}

fn tool(name: &str, found: bool) -> Tool {
    Tool { name: name.to_string(), found }
}

fn known() -> Vec<LanguageHealth> {
    vec![
        LanguageHealth {
            language_id: "rust".to_string(),
            servers: vec![
                ServerTool { tool: tool("unknown", true), configured: false },
                ServerTool { tool: tool("ra", true), configured: true },
                ServerTool { tool: tool("rls", false), configured: true },
            ],
            debugger: None,
            formatter: Some(tool("fmt", true)),
            features: vec![true, false, true, true, false],
        },
        LanguageHealth {
            language_id: "c".to_string(),
            servers: vec![],
            debugger: Some(tool("lldb", false)),
            formatter: None,
            features: vec![true; 5],
        },
    ]
}

#[test]
fn languages_are_listed_by_name() {
    let rows = languages_all(known(), 10);
    assert_eq!(rows.len(), 4);
    assert_eq!(rows[0].len(), 9);
    assert!(rows[0].iter().all(|cell| cell.color == Color::Bold));
    assert_eq!(rows[0][0].text, "Language… ");
    assert_eq!(rows[1][0].text, "c         ");
    assert_eq!(rows[1][1].text, "None      ");
    assert_eq!(rows[1][1].color, Color::Yellow);
    assert_eq!(rows[1][2].text, "✘ lldb… ".to_string() + "  ");
    assert_eq!(rows[1][2].color, Color::Red);
    assert_eq!(rows[2][1].text, "✓ ra      ");
    assert_eq!(rows[2][1].color, Color::Green);
    assert_eq!(rows[2][4].color, Color::Green);
    assert_eq!(rows[2][5].color, Color::Red);
    assert_eq!(line(&rows[3]), "          ✘ rls     ");
    let selected = languages_selection(Some(vec!["c".to_string()]), known(), 10);
    assert_eq!(selected.len(), 2);
    assert_eq!(languages_selection(None, known(), 10).len(), 4);
    assert!(selection_note(true).unwrap().contains("use-grammars"));
    assert!(selection_note(false).is_none());
}

#[test]
fn origins_are_named() {
    assert_eq!(origin_label(&Origin::Explicit), "explicit path");
    let managed = Origin::Managed { name: "ra".to_string(), version: "1.2".to_string() };
    assert_eq!(origin_label(&managed), "pkg ra 1.2");
    assert_eq!(origin_label(&Origin::Path), "$PATH");
    assert_eq!(
        origin_label(&Origin::RuntimeOverride { root: "/o".to_string() }),
        "runtime override /o"
    );
    assert_eq!(
        origin_label(&Origin::BundledRuntime { root: "/b".to_string() }),
        "bundled runtime /b"
    );
}

fn probe(name: &str, resolved: Result<Option<Resolved>, String>) -> Probe {
    Probe { name: name.to_string(), command: format!("{}-command", name), resolved }
}

#[test]
fn a_language_is_reported_on() {
    let found = Resolved { program: "/bin/ra".to_string(), origin: Origin::Path };
    let report = language(&LanguageProbe {
        servers: vec![probe("ra", Ok(Some(found))), probe("rls", Ok(None))],
        debugger: None,
        formatter: Some(probe("fmt", Err("broken".to_string()))),
        parser: false,
        highlight: true,
        text_object: false,
        auto_indent: true,
        tags: true,
        rainbow_bracket: true,
    });
    assert_eq!(
        lines(&report),
        vec![
            "Configured language servers:",
            "  ✓ ra: /bin/ra ($PATH)",
            "  ✘ rls: 'rls-command' not found in runtime assets or $PATH",
            "Configured debug adapter: None",
            "Configured formatter:",
            "  ✘ broken",
            "Tree-sitter parser: None",
            "Highlight queries: ✓",
            "Textobject queries: ✘",
            "Indent queries: ✓",
            "Tags queries: ✓",
            "Rainbow queries: ✓",
        ]
    );
}

#[test]
fn unknown_languages_are_suggested() {
    let ids = vec!["rust".to_string(), "ruby".to_string(), "c".to_string()];
    assert!(matches!(find_language(&ids, "ruby"), LanguageLookup::Found(1)));
    match find_language(&ids, "rest") {
        LanguageLookup::Suggestions(names) => {
            assert_eq!(
                lines(&unknown_language("rest", &names)),
                vec!["Language 'rest' not found", "Did you mean one of these: rust, ruby ?"]
            );
        }
        other => panic!("{:?}", other),
    }
    assert_eq!(lines(&unknown_language("x", &vec![])), vec!["Language 'x' not found"]);
}

#[test]
fn files_in_use_are_reported_on() {
    let root = |path: &str, exists, entries| RuntimeRoot {
        path: path.to_string(),
        link: None,
        exists,
        entries,
    };
    let mut linked = root("/l", true, Some(3));
    linked.link = Some("/t".to_string());
    let health = RuntimeHealth {
        generation: 12,
        overrides: vec![linked, root("/m", false, None)],
        bundled: vec![root("/e", true, Some(0))],
        packages: vec![ActivePackage {
            kind: "lsp".to_string(),
            name: "ra".to_string(),
            version: "1".to_string(),
        }],
    };
    assert_eq!(
        lines(&general(&Some("/c".to_string()), &None, "/log", &Ok(health))),
        vec![
            "Config file: /c",
            "Language file: default",
            "Log file: /log",
            "Runtime generation: 12",
            "Runtime override: /l",
            "Runtime override is symlinked to: /t",
            "Runtime override: /m",
            "Runtime override does not exist: /m",
            "Runtime bundled: /e",
            "Runtime bundled is empty: /e",
            "Active runtime packages:",
            "  lsp ra 1",
        ]
    );
    let broken = general(&None, &None, "/log", &Err("locked".to_string()));
    assert_eq!(line(&broken[3]), "Runtime state: locked");
    assert_eq!(broken[3][0].color, Color::Red);
    assert_eq!(runtime_root_problem(true, Some(1)), None);
    assert_eq!(runtime_root_problem(false, None), Some(RootProblem::Missing));
}

#[test]
fn bad_language_configurations_are_told_and_replaced() {
    let (config, errors) = language_config(Ok("mine"), "default");
    assert_eq!(config, "mine");
    assert!(errors.is_empty());
    let (config, errors) = language_config(Err("line 3".to_string()), "default");
    assert_eq!(config, "default");
    assert_eq!(
        lines(&errors),
        vec!["Error parsing user language config: line 3", "Using default language config"]
    );
    assert_eq!(errors[0][0].color, Color::Red);
    assert_eq!(errors[0][1].color, Color::Plain);
    assert_eq!(errors[1][0].color, Color::Yellow);
}

#[test]
fn the_clipboard_is_reported_on() {
    let missing = Err(ConfigLoadError::default());
    assert_eq!(
        lines(&clipboard(&missing, "wayland")),
        vec!["System clipboard provider: wayland"]
    );
    let none = clipboard(&Ok("none".to_string()), "wayland");
    assert_eq!(line(&none[0]), "System clipboard provider: Not installed");
    assert_eq!(none.len(), 3);
    assert_eq!(none[1][1].color, Color::Red);
    assert_eq!(none[2][1].color, Color::RedLink);
    let bad = Err(ConfigLoadError::BadConfig("expected a table".to_string()));
    assert_eq!(
        lines(&clipboard(&bad, "wayland")),
        vec!["Configuration file malformed", "expected a table"]
    );
}

#[test]
fn reports_have_their_parts() {
    assert!(matches!(
        print_health(None)[..],
        [
            HealthSection::General,
            HealthSection::Clipboard,
            HealthSection::EmptyLine,
            HealthSection::LanguagesSelection
        ]
    ));
    assert!(matches!(
        print_health(Some("all".to_string()))[3],
        HealthSection::LanguagesAll
    ));
    assert!(matches!(
        print_health(Some("all-languages".to_string()))[..],
        [HealthSection::LanguagesAll]
    ));
    match &print_health(Some("rust".to_string()))[..] {
        [HealthSection::Language(name)] => assert_eq!(name, "rust"),
        other => panic!("{:?}", other),
    }
}
