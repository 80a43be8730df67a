use d2fps::config::{Config, ConfigIssue, IssueKind};
use d2fps::features::{
    after_feature_step, feature_step, features_on_attach, AttachFailure, FeatureId, FeatureStep, Features, ALL_BITS,
};
use d2fps::util::{game_fps, FileVersion, Ratio};

fn r(num: u32, den: u32) -> Ratio {
    Ratio::new(num, den)
}

#[test]
fn ratio_parses_whole_and_fractions() {
    assert_eq!(Ratio::parse("60"), Ok(r(60, 1)));
    assert_eq!(Ratio::parse("+7"), Ok(r(7, 1)));
    assert_eq!(Ratio::parse("120/2"), Ok(r(60, 1)));
    assert_eq!(Ratio::parse("60000/1001"), Ok(r(60000, 1001)));
    assert_eq!(Ratio::parse("0/5"), Ok(r(0, 1)));
    assert_eq!(Ratio::parse("1/0"), Err(()));
    assert_eq!(Ratio::parse(""), Err(()));
    assert_eq!(Ratio::parse(" 60"), Err(()));
    assert_eq!(Ratio::parse("4294967296"), Err(()));
    assert_eq!(Ratio::parse("1/2/3"), Err(()));
    assert_eq!("144".parse::<Ratio>(), Ok(r(144, 1)));
}

#[test]
fn ratio_reduces_to_lowest_terms() {
    assert_eq!(r(50, 2).reduced(), r(25, 1));
    assert_eq!(r(144, 96).reduced(), r(3, 2));
    assert_eq!(r(0, 7).reduced(), r(0, 1));
    assert_eq!(r(13, 7).reduced(), r(13, 7));
    let once = r(360, 48).reduced();
    assert_eq!(once.reduced(), once);
}

#[test]
fn ratio_display() {
    assert_eq!(r(60, 1).to_string(), "60");
    assert_eq!(r(0, 7).to_string(), "0");
    assert_eq!(r(60000, 1001).to_string(), "60000/1001");
    assert_eq!(game_fps().to_string(), "25");
}

#[test]
fn file_version_display_and_parts() {
    let v = FileVersion { ms: 0x0001_000e, ls: 0x0003_0047 };
    assert_eq!(v.parts(), (1, 14, 3, 71));
    assert_eq!(v.to_string(), "1.14.3.71");
    assert_eq!(FileVersion { ms: 0, ls: 0 }.to_string(), "0.0.0.0");
}

#[test]
fn features_display() {
    assert_eq!(Features::all().to_string(), "[`menu fps`, `game fps`, `motion smoothing`]");
    assert_eq!(Features::empty().to_string(), "[]");
    assert_eq!(Features::motion_smoothing().to_string(), "[`motion smoothing`]");
    assert_eq!(Features::from_bits_retain(5).to_string(), "[`menu fps`, `motion smoothing`]");
}

#[test]
fn feature_ids() {
    let ids = FeatureId::iter();
    assert_eq!(ids, vec![FeatureId::MenuFps, FeatureId::GameFps, FeatureId::MotionSmoothing]);
    assert_eq!(FeatureId::MenuFps.name(), "menu fps");
    assert_eq!(FeatureId::MotionSmoothing.as_flag().bits(), 4);
    assert_eq!(FeatureId::MotionSmoothing.prereqs().bits(), 2);
    assert_eq!(FeatureId::GameFps.prereqs().bits(), 0);
    assert_eq!(FeatureId::from_index(1), Some(FeatureId::GameFps));
    assert_eq!(FeatureId::from_index(3), None);
}

#[test]
fn feature_sets() {
    let all = Features::all();
    assert_eq!(all.bits(), ALL_BITS);
    assert!(all.contains(Features::fps()));
    assert!(!Features::menu_fps().contains(Features::fps()));
    assert!(Features::menu_fps().intersects(Features::fps()));
    assert_eq!(all.difference(Features::game_fps()).bits(), 5);
    assert_eq!(Features::menu_fps().union(Features::motion_smoothing()).bits(), 5);
    // Enabling adds the bits; disabling leaves the set unchanged.
    assert_eq!(Features::empty().set(Features::game_fps(), true).bits(), 2);
    assert_eq!(all.set(Features::game_fps(), false).bits(), 7);
}

#[test]
fn defaults() {
    let c = Config::new();
    assert_eq!(c.fps, r(0, 1));
    assert_eq!(c.bg_fps, r(25, 1));
    assert_eq!(c.features.bits(), ALL_BITS);
}

#[test]
fn file_settings_apply_in_order() {
    let mut c = Config::new();
    let text = "# comment\n\nfps = 120/2 # sixty\r\n  bg-fps=30\nmotion-smoothing = true\nfps=144\n";
    let issues = c.apply_file(text);
    assert_eq!(issues, vec![]);
    assert_eq!(c.fps, r(144, 1));
    assert_eq!(c.bg_fps, r(30, 1));
    assert_eq!(c.features.bits(), ALL_BITS);
}

#[test]
fn file_issues_name_their_lines() {
    let mut c = Config::new();
    let text = "fps = fast\nspeed = 3\nno value here\nbg-fps = 50\nmenu-fps = maybe";
    let issues = c.apply_file(text);
    assert_eq!(
        issues,
        vec![
            ConfigIssue { position: 1, kind: IssueKind::UnknownValue },
            ConfigIssue { position: 2, kind: IssueKind::UnknownKey },
            ConfigIssue { position: 3, kind: IssueKind::MissingValue },
            ConfigIssue { position: 5, kind: IssueKind::UnknownValue },
        ]
    );
    assert_eq!(c.fps, r(0, 1));
    assert_eq!(c.bg_fps, r(50, 1));
}

#[test]
fn disabling_a_feature_changes_nothing() {
    let mut c = Config::new();
    let issues = c.apply_file("game-fps = false\n");
    assert_eq!(issues, vec![]);
    assert_eq!(c.features.bits(), ALL_BITS);
}

#[test]
fn arguments_override_the_file() {
    let mut c = Config::new();
    let args = vec![
        "game.exe".to_string(),
        "-fps=75".to_string(),
        "-bg-fps=1/0".to_string(),
        "-unknown=1".to_string(),
        "-bg-fps=20".to_string(),
    ];
    let (file_issues, arg_issues) = c.load_config(Some("fps = 30\nbg-fps = 10\n"), &args);
    assert_eq!(file_issues, vec![]);
    assert_eq!(arg_issues, vec![ConfigIssue { position: 3, kind: IssueKind::UnknownValue }]);
    assert_eq!(c.fps, r(75, 1));
    assert_eq!(c.bg_fps, r(20, 1));
}

#[test]
fn missing_file_uses_arguments_only() {
    let mut c = Config::new();
    let (file_issues, arg_issues) = c.load_config(None, &vec!["-fmotion-smoothing=true".to_string()]);
    assert!(file_issues.is_empty() && arg_issues.is_empty());
    assert_eq!(c.features.bits(), ALL_BITS);
}

#[test]
fn feature_steps() {
    let all = Features::all();
    assert_eq!(feature_step(all, FeatureId::GameFps, true), FeatureStep::Apply);
    assert_eq!(feature_step(all, FeatureId::GameFps, false), FeatureStep::Unsupported);
    assert_eq!(feature_step(Features::menu_fps(), FeatureId::GameFps, true), FeatureStep::Off);
    let no_game = all.difference(Features::game_fps());
    match feature_step(no_game, FeatureId::MotionSmoothing, true) {
        FeatureStep::MissingPrereqs(m) => assert_eq!(m.bits(), 2),
        other => panic!("unexpected step {:?}", other),
    }
    assert_eq!(after_feature_step(all, FeatureId::GameFps, FeatureStep::Apply, true).bits(), 7);
    assert_eq!(after_feature_step(all, FeatureId::GameFps, FeatureStep::Apply, false).bits(), 5);
    assert_eq!(after_feature_step(all, FeatureId::GameFps, FeatureStep::Unsupported, false).bits(), 5);
    assert_eq!(after_feature_step(no_game, FeatureId::GameFps, FeatureStep::Off, false).bits(), 5);
}

#[test]
fn failed_game_fps_disables_motion_smoothing() {
    // Going through the features in order, as the attach step does: the game
    // frame rate fails to apply, so motion smoothing loses its prerequisite.
    let mut current = Features::all();
    for f in FeatureId::iter() {
        let step = feature_step(current, f, true);
        let applied = step == FeatureStep::Apply && f != FeatureId::GameFps;
        current = after_feature_step(current, f, step, applied);
    }
    assert_eq!(current.bits(), 1);
}

#[test]
fn printed_ratios_parse_back_reduced() {
    for r in [r(0, 7), r(60, 1), r(144, 96), r(60000, 1001), r(u32::MAX, u32::MAX - 1)] {
        assert_eq!(Ratio::parse(&r.to_string()), Ok(r.reduced()));
    }
}

#[test]
fn failed_reads_disable_every_feature() {
    let all = Features::all();
    assert_eq!(features_on_attach(all, None).bits(), ALL_BITS);
    assert_eq!(features_on_attach(all, Some(AttachFailure::Version)).bits(), 0);
    assert_eq!(features_on_attach(all, Some(AttachFailure::Modules)).bits(), 0);
    assert_eq!(features_on_attach(all, Some(AttachFailure::Addresses)).bits(), 0);
}
