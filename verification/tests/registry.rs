//! The registry of channels: selection by key, dispatch, the remote control.

use television::channels::{OnAir, TelevisionChannel, UnitChannel};
use television::entry::{Entry, PreviewType};
use television::fuzzy::Candidate;

fn selected(key: &str) -> Result<TelevisionChannel, String> {
    TelevisionChannel::try_from(&Entry::new(key.to_string(), PreviewType::Basic))
}

fn settled(channel: &mut TelevisionChannel, num_entries: u32, offset: u32) -> Vec<Entry> {
    let mut entries = channel.results(num_entries, offset);
    let mut ticks = 0;
    while channel.running() && ticks < 1000 {
        entries = channel.results(num_entries, offset);
        ticks += 1;
    }
    assert!(!channel.running());
    entries
}

#[test]
fn unknown_key_is_refused_by_name() {
    match selected("bogus") {
        Ok(_) => panic!("bogus selects no channel"),
        Err(message) => assert_eq!(message, "Unknown channel: bogus"),
    }
}

#[test]
fn refusal_names_the_key_as_it_was_written() {
    match selected("BoGuS channel") {
        Ok(_) => panic!("selects no channel"),
        Err(message) => assert_eq!(message, "Unknown channel: BoGuS channel"),
    }
    match selected("") {
        Ok(_) => panic!("selects no channel"),
        Err(message) => assert_eq!(message, "Unknown channel: "),
    }
}

#[test]
fn every_key_selects_its_kind() {
    let table = [
        ("env", UnitChannel::Env),
        ("files", UnitChannel::Files),
        ("gitrepos", UnitChannel::GitRepos),
        ("text", UnitChannel::Text),
        ("stdin", UnitChannel::Stdin),
        ("alias", UnitChannel::Alias),
    ];
    for (key, kind) in table {
        let channel = selected(key).expect("a known key");
        assert_eq!(channel.unit(), kind);
        assert_eq!(UnitChannel::from_key(key), Some(kind));
        assert_eq!(channel.result_count(), 0);
        assert_eq!(channel.total_count(), 0);
    }
}

#[test]
fn entry_converts_into_the_channel_it_names() {
    let entry = Entry::new("text".to_string(), PreviewType::Basic);
    let converted: Result<TelevisionChannel, String> = (&entry).try_into();
    assert_eq!(converted.expect("a known key").unit(), UnitChannel::Text);
    let unknown = Entry::new("radio".to_string(), PreviewType::Basic);
    let refused: Result<TelevisionChannel, String> = (&unknown).try_into();
    assert_eq!(refused.err(), Some("Unknown channel: radio".to_string()));
}

#[test]
fn keys_are_matched_whatever_their_case() {
    assert_eq!(selected("FILES").unwrap().unit(), UnitChannel::Files);
    assert_eq!(selected("GitRepos").unwrap().unit(), UnitChannel::GitRepos);
    assert_eq!(selected("aLiAs").unwrap().unit(), UnitChannel::Alias);
    assert_eq!(UnitChannel::from_key("ENV"), Some(UnitChannel::Env));
}

#[test]
fn near_keys_select_nothing() {
    for key in ["en", "envs", " env", "env ", "git-repos", "remote_control", "remotecontrol", "ålias"] {
        assert_eq!(UnitChannel::from_key(key), None);
        assert!(selected(key).is_err());
    }
}

#[test]
fn selected_channel_starts_empty_and_takes_candidates() {
    let mut channel = selected("files").unwrap();
    channel.find("");
    assert!(settled(&mut channel, 10, 0).is_empty());
    assert!(channel.push(Candidate::new("src/lib.rs".to_string(), None).unwrap()));
    assert!(channel.push(Candidate::new("Cargo.toml".to_string(), None).unwrap()));
    channel.find("lib");
    let entries = settled(&mut channel, 10, 0);
    assert_eq!(entries.len(), 1);
    assert_eq!(entries[0].name, "src/lib.rs");
    assert_eq!(entries[0].value, None);
    assert_eq!(entries[0].preview_type, PreviewType::Files);
    assert_eq!(entries[0].name_match_ranges, Some(vec![(4, 5), (5, 6), (6, 7)]));
    assert_eq!(channel.total_count(), 2);
    assert_eq!(channel.unit(), UnitChannel::Files);
}

#[test]
fn kinds_carry_their_preview() {
    assert_eq!(UnitChannel::Env.preview_type(), PreviewType::EnvVar);
    assert_eq!(UnitChannel::Alias.preview_type(), PreviewType::EnvVar);
    assert_eq!(UnitChannel::Files.preview_type(), PreviewType::Files);
    assert_eq!(UnitChannel::Text.preview_type(), PreviewType::Files);
    assert_eq!(UnitChannel::GitRepos.preview_type(), PreviewType::Directory);
    assert_eq!(UnitChannel::Stdin.preview_type(), PreviewType::Basic);
    assert_eq!(UnitChannel::RemoteControl.preview_type(), PreviewType::Basic);
}

#[test]
fn remote_control_lists_the_keys() {
    let mut remote = TelevisionChannel::remote_control();
    assert_eq!(remote.unit(), UnitChannel::RemoteControl);
    remote.find("");
    let entries = settled(&mut remote, 10, 0);
    let names: Vec<&str> = entries.iter().map(|entry| entry.name.as_str()).collect();
    assert_eq!(names, vec!["env", "files", "gitrepos", "text", "stdin", "alias"]);
    assert_eq!(remote.result_count(), 6);
    assert_eq!(remote.total_count(), 6);
    for entry in &entries {
        assert_eq!(entry.value, None);
        assert_eq!(entry.preview_type, PreviewType::Basic);
    }
}

#[test]
fn switching_is_picking_an_entry_of_the_remote_control() {
    let mut remote = TelevisionChannel::remote_control();
    remote.find("git");
    let entries = settled(&mut remote, 10, 0);
    assert_eq!(entries.len(), 1);
    assert_eq!(entries[0].name, "gitrepos");
    assert_eq!(entries[0].name_match_ranges, Some(vec![(0, 1), (1, 2), (2, 3)]));
    let picked = remote.get_result(0).expect("one match");
    let channel = TelevisionChannel::try_from(&picked).expect("a listed key");
    assert_eq!(channel.unit(), UnitChannel::GitRepos);
}

#[test]
fn every_entry_of_the_remote_control_selects_a_channel() {
    let mut remote = TelevisionChannel::remote_control();
    remote.find("");
    for entry in settled(&mut remote, 10, 0) {
        assert!(TelevisionChannel::try_from(&entry).is_ok());
    }
}

#[test]
fn channels_do_not_share_their_state() {
    let aliases = vec![Candidate::new("ll".to_string(), Some("ls -la".to_string())).unwrap()];
    let variables = vec![
        Candidate::new("HOME".to_string(), Some("/root".to_string())).unwrap(),
        Candidate::new("SHELL".to_string(), Some("/bin/zsh".to_string())).unwrap(),
    ];
    let mut alias = TelevisionChannel::new(UnitChannel::Alias, aliases);
    let mut env = TelevisionChannel::new(UnitChannel::Env, variables);
    alias.find("ll");
    env.find("sh");
    assert_eq!(settled(&mut alias, 10, 0).len(), 1);
    let found = settled(&mut env, 10, 0);
    assert_eq!(found.len(), 1);
    assert_eq!(found[0].name, "SHELL");
    assert_eq!(found[0].value, Some("/bin/zsh".to_string()));
    assert_eq!(alias.total_count(), 1);
    assert_eq!(env.total_count(), 2);
    env.shutdown();
    assert_eq!(env.total_count(), 0);
    assert_eq!(alias.total_count(), 1);
    assert_eq!(alias.results(10, 0).len(), 1);
}

#[test]
fn dispatch_reaches_every_case() {
    let kinds = [
        UnitChannel::Env,
        UnitChannel::Files,
        UnitChannel::GitRepos,
        UnitChannel::Text,
        UnitChannel::Stdin,
        UnitChannel::Alias,
        UnitChannel::RemoteControl,
    ];
    for kind in kinds {
        let candidates = vec![
            Candidate::new("alpha".to_string(), None).unwrap(),
            Candidate::new("beta".to_string(), None).unwrap(),
        ];
        let mut channel = TelevisionChannel::new(kind, candidates);
        assert_eq!(channel.unit(), kind);
        channel.find("bet");
        let entries = settled(&mut channel, 10, 0);
        assert_eq!(entries.len(), 1);
        assert_eq!(entries[0].name, "beta");
        assert_eq!(entries[0].preview_type, kind.preview_type());
        assert_eq!(channel.result_count(), 1);
        assert_eq!(channel.total_count(), 2);
        assert_eq!(channel.get_result(0).unwrap().name, "beta");
        assert!(channel.get_result(1).is_none());
        channel.shutdown();
        assert_eq!(channel.total_count(), 0);
        assert_eq!(channel.unit(), kind);
    }
}
