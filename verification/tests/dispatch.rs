use mpv_handler::config::{ConfigError, Configuration};
use mpv_handler::invoker::{spawn_result, ExecError, SpawnError, SpawnOutcome};
use mpv_handler::options::Options;
use mpv_handler::plugins::{conclude, flag, merge, play, prepare};
use mpv_handler::protocol::parse;

fn options_of(pairs: &[(&[u8], &[u8])]) -> Options {
    let mut options = Options::new();
    for (key, value) in pairs {
        options.set(key.to_vec(), value.to_vec());
    }
    options
}

fn listed(options: &Options) -> Vec<(Vec<u8>, Vec<u8>)> {
    (0..options.len()).map(|i| (options.key_at(i).clone(), options.value_at(i).clone())).collect()
}

fn pair(key: &[u8], value: &[u8]) -> (Vec<u8>, Vec<u8>) {
    (key.to_vec(), value.to_vec())
}

#[test]
fn new_options_are_empty() {
    let options = Options::new();
    assert_eq!(options.len(), 0);
    assert!(options.get(b"a").is_none());
    assert_eq!(options.find(b"a"), 0);
}

#[test]
fn set_adds_at_the_end_and_replaces_in_place() {
    let mut options = Options::new();
    options.set(b"a".to_vec(), b"1".to_vec());
    options.set(b"b".to_vec(), b"2".to_vec());
    options.set(b"c".to_vec(), b"3".to_vec());
    assert_eq!(listed(&options), vec![pair(b"a", b"1"), pair(b"b", b"2"), pair(b"c", b"3")]);
    options.set(b"b".to_vec(), b"4".to_vec());
    assert_eq!(listed(&options), vec![pair(b"a", b"1"), pair(b"b", b"4"), pair(b"c", b"3")]);
    assert_eq!(options.find(b"a"), 0);
    assert_eq!(options.find(b"b"), 1);
    assert_eq!(options.find(b"c"), 2);
    assert_eq!(options.find(b"d"), 3);
    assert_eq!(options.get(b"b").unwrap().as_slice(), b"4");
    assert!(options.get(b"d").is_none());
    assert!(options.get(b"").is_none());
}

#[test]
fn set_leaves_other_keys_alone() {
    let mut options = options_of(&[(b"a", b"1"), (b"ab", b"2")]);
    options.set(b"a".to_vec(), b"9".to_vec());
    assert_eq!(options.get(b"a").unwrap().as_slice(), b"9");
    assert_eq!(options.get(b"ab").unwrap().as_slice(), b"2");
}

#[test]
fn duplicate_is_a_copy() {
    let options = options_of(&[(b"a", b"1"), (b"b", b"2")]);
    let mut copy = options.duplicate();
    assert_eq!(listed(&copy), listed(&options));
    copy.set(b"a".to_vec(), b"3".to_vec());
    assert_eq!(options.get(b"a").unwrap().as_slice(), b"1");
}

#[test]
fn set_all_sets_each_in_turn() {
    let mut options = options_of(&[(b"a", b"1"), (b"b", b"2")]);
    options.set_all(&options_of(&[(b"c", b"3"), (b"a", b"4")]));
    assert_eq!(listed(&options), vec![pair(b"a", b"4"), pair(b"b", b"2"), pair(b"c", b"3")]);
}

#[test]
fn request_options_override_defaults() {
    let defaults = options_of(&[(b"quality", b"480"), (b"profile", b"low")]);
    let request = options_of(&[(b"volume", b"50"), (b"quality", b"720")]);
    let merged = merge(&defaults, &request);
    assert_eq!(
        listed(&merged),
        vec![pair(b"quality", b"720"), pair(b"profile", b"low"), pair(b"volume", b"50")]
    );
    assert_eq!(listed(&merge(&defaults, &Options::new())), listed(&defaults));
    assert_eq!(listed(&merge(&Options::new(), &request)), listed(&request));
}

#[test]
fn flag_is_two_dashes_key_equals_value() {
    assert_eq!(flag(b"quality", b"720"), b"--quality=720".to_vec());
    assert_eq!(flag(b"mute", b""), b"--mute=".to_vec());
    assert_eq!(flag(b"", b""), b"--=".to_vec());
}

#[test]
fn play_with_no_options_passes_only_the_target() {
    let request = parse(b"handler://play/https%3A%2F%2Fexample.com%2Fv%3Fid%3D1").unwrap();
    let config = Configuration::new(b"/usr/bin/mpv".to_vec(), Options::new()).unwrap();
    let invocation = prepare(&request, &config);
    assert_eq!(invocation.program, b"/usr/bin/mpv".to_vec());
    assert_eq!(invocation.args, vec![b"https://example.com/v?id=1".to_vec()]);
}

#[test]
fn play_puts_merged_options_before_the_target() {
    let request = parse(b"handler://play/video.mkv?volume=50&quality=720").unwrap();
    let defaults = options_of(&[(b"quality", b"480"), (b"profile", b"low")]);
    let config = Configuration::new(b"mpv".to_vec(), defaults).unwrap();
    let invocation = prepare(&request, &config);
    assert_eq!(invocation.program, b"mpv".to_vec());
    assert_eq!(
        invocation.args,
        vec![
            b"--quality=720".to_vec(),
            b"--profile=low".to_vec(),
            b"--volume=50".to_vec(),
            b"video.mkv".to_vec(),
        ]
    );
    let direct = play(&request, &config);
    assert_eq!(direct.program, invocation.program);
    assert_eq!(direct.args, invocation.args);
}

#[test]
fn configuration_is_not_changed_by_a_request() {
    let request = parse(b"handler://play/x?quality=720").unwrap();
    let config = Configuration::new(b"mpv".to_vec(), options_of(&[(b"quality", b"480")])).unwrap();
    let _ = prepare(&request, &config);
    assert_eq!(config.player().as_slice(), b"mpv");
    assert_eq!(listed(config.defaults()), vec![pair(b"quality", b"480")]);
}

#[test]
fn configuration_without_player_is_refused() {
    assert_eq!(Configuration::new(Vec::new(), Options::new()).err(), Some(ConfigError::MissingPlayer));
    assert_eq!(Configuration::from_text(b"").err(), Some(ConfigError::MissingPlayer));
    assert_eq!(Configuration::from_text(b"\n").err(), Some(ConfigError::MissingPlayer));
    assert_eq!(Configuration::from_text(b"\nquality=720\n").err(), Some(ConfigError::MissingPlayer));
}

#[test]
fn configuration_text_is_player_then_defaults() {
    let config = Configuration::from_text(b"/usr/bin/mpv\nquality=480&profile=low%20power\nignored\n").unwrap();
    assert_eq!(config.player().as_slice(), b"/usr/bin/mpv");
    assert_eq!(listed(config.defaults()), vec![pair(b"quality", b"480"), pair(b"profile", b"low power")]);
    let bare = Configuration::from_text(b"/usr/bin/mpv").unwrap();
    assert_eq!(bare.player().as_slice(), b"/usr/bin/mpv");
    assert_eq!(bare.defaults().len(), 0);
    let one_line = Configuration::from_text(b"mpv\n").unwrap();
    assert_eq!(one_line.player().as_slice(), b"mpv");
    assert_eq!(one_line.defaults().len(), 0);
    let blank_second = Configuration::from_text(b"mpv\n\nquality=480\n").unwrap();
    assert_eq!(blank_second.defaults().len(), 0);
}

#[test]
fn configuration_with_bad_defaults_is_malformed() {
    assert_eq!(Configuration::from_text(b"mpv\nquality=%4").err(), Some(ConfigError::Malformed));
    assert_eq!(Configuration::from_text(b"mpv\nquality=%FF\n").err(), Some(ConfigError::Malformed));
}

#[test]
fn missing_player_is_player_not_found() {
    assert_eq!(spawn_result(SpawnOutcome::NotFound), Err(SpawnError::PlayerNotFound));
    assert_eq!(conclude(SpawnOutcome::NotFound), Err(ExecError::Spawn(SpawnError::PlayerNotFound)));
}

#[test]
fn refused_start_is_spawn_failed() {
    assert_eq!(spawn_result(SpawnOutcome::Refused), Err(SpawnError::SpawnFailed));
    assert_eq!(conclude(SpawnOutcome::Refused), Err(ExecError::Spawn(SpawnError::SpawnFailed)));
}

#[test]
fn started_player_is_success() {
    assert_eq!(spawn_result(SpawnOutcome::Started), Ok(()));
    assert_eq!(conclude(SpawnOutcome::Started), Ok(()));
}
