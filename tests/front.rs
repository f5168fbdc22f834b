use thl_patcher::cli::parse_confirmation;
use thl_patcher::config::{DefaultPaths, PatcherConfig};
use thl_patcher::selectors::FileSelectors;

#[test]
fn confirmation_words() {
    for w in ["y", "yes", "o", "oui"] {
        assert_eq!(parse_confirmation(&w.to_string()), Some(true));
    }
    for w in ["n", "no", "non"] {
        assert_eq!(parse_confirmation(&w.to_string()), Some(false));
    }
    for w in ["", "Y", "nope", "ouii"] {
        assert_eq!(parse_confirmation(&w.to_string()), None);
    }
}

#[test]
fn default_config() {
    let c = PatcherConfig::default();
    assert_eq!(c.window_name, "Patcher");
    assert!(c.source.is_empty());
    assert!(c.default_paths.is_empty());
}

#[test]
fn candidates_for_the_host_system_in_order() {
    let c = PatcherConfig {
        window_name: "w".to_string(),
        source: "s".to_string(),
        default_paths: vec![
            DefaultPaths { target_os: "linux".to_string(), possible_paths: vec!["/opt/game".to_string()] },
            DefaultPaths { target_os: "windows".to_string(), possible_paths: vec!["C:\\Game".to_string()] },
            DefaultPaths {
                target_os: "linux".to_string(),
                possible_paths: vec!["/usr/games/game".to_string(), "relative/game".to_string()],
            },
        ],
    };
    assert_eq!(
        c.default_path_candidates(&"linux".to_string()),
        vec!["/opt/game".to_string(), "/usr/games/game".to_string(), "relative/game".to_string()]
    );
    assert_eq!(c.default_path_candidates(&"windows".to_string()), vec!["C:\\Game".to_string()]);
    assert!(c.default_path_candidates(&"macos".to_string()).is_empty());
}

#[test]
fn tilde_is_expanded() {
    let c = PatcherConfig {
        window_name: String::new(),
        source: String::new(),
        default_paths: vec![DefaultPaths { target_os: "linux".to_string(), possible_paths: vec!["~/game".to_string()] }],
    };
    let r = c.default_path_candidates(&"linux".to_string());
    assert_eq!(r.len(), 1);
    assert!(r[0].ends_with("/game"));
}

#[test]
fn triplet_needs_all_three_paths() {
    let mut s = FileSelectors::new();
    assert!(s.triplet().is_none());
    s.original = Some("old".to_string());
    s.new = Some("new".to_string());
    assert!(s.triplet().is_none());
    s.result = Some("result.tar".to_string());
    let t = match s.triplet() {
        Some(t) => t,
        None => panic!("all three are chosen"),
    };
    assert_eq!((t.original.as_str(), t.new.as_str(), t.result.as_str()), ("old", "new", "result.tar"));
}
