use mpv_handler::percent::{decode, encode};
use mpv_handler::protocol::{parse, parse_options, scheme, DecodeError, Plugin};

fn raw_for(target: &[u8]) -> Vec<u8> {
    let mut raw = scheme();
    raw.extend_from_slice(&Plugin::Play.name());
    raw.push(b'/');
    raw.extend_from_slice(&encode(target));
    raw
}

#[test]
fn scheme_is_handler() {
    assert_eq!(scheme(), b"handler://".to_vec());
    assert_eq!(Plugin::Play.name(), b"play".to_vec());
}

#[test]
fn decodes_encoded_url_target() {
    let request = parse(b"handler://play/https%3A%2F%2Fexample.com%2Fv%3Fid%3D1").unwrap();
    assert_eq!(request.plugin(), Plugin::Play);
    assert_eq!(request.target().as_slice(), b"https://example.com/v?id=1");
    assert_eq!(request.options().len(), 0);
}

#[test]
fn decodes_target_with_quality_option() {
    let request = parse(b"handler://play/aHR0cHM6Ly9leGFtcGxlLmNvbQ%3D%3D?quality=720").unwrap();
    assert_eq!(request.plugin(), Plugin::Play);
    assert_eq!(request.target().as_slice(), b"aHR0cHM6Ly9leGFtcGxlLmNvbQ==");
    assert_eq!(request.options().len(), 1);
    assert_eq!(request.options().key_at(0).as_slice(), b"quality");
    assert_eq!(request.options().value_at(0).as_slice(), b"720");
    assert_eq!(request.options().get(b"quality").unwrap().as_slice(), b"720");
}

#[test]
fn wrong_scheme_is_invalid_scheme() {
    assert_eq!(parse(b"").err(), Some(DecodeError::InvalidScheme));
    assert_eq!(parse(b"handler:/").err(), Some(DecodeError::InvalidScheme));
    assert_eq!(parse(b"https://play/x").err(), Some(DecodeError::InvalidScheme));
    assert_eq!(parse(b"Handler://play/x").err(), Some(DecodeError::InvalidScheme));
    assert_eq!(parse(b" handler://play/x").err(), Some(DecodeError::InvalidScheme));
    assert_eq!(parse(b"play/x").err(), Some(DecodeError::InvalidScheme));
}

#[test]
fn unknown_plugin_is_refused() {
    assert_eq!(parse(b"handler://").err(), Some(DecodeError::UnknownPlugin));
    assert_eq!(parse(b"handler:///x").err(), Some(DecodeError::UnknownPlugin));
    assert_eq!(parse(b"handler://download/x").err(), Some(DecodeError::UnknownPlugin));
    assert_eq!(parse(b"handler://Play/x").err(), Some(DecodeError::UnknownPlugin));
    assert_eq!(parse(b"handler://player/x").err(), Some(DecodeError::UnknownPlugin));
    assert_eq!(parse(b"handler://pla/x").err(), Some(DecodeError::UnknownPlugin));
    assert_eq!(parse(b"handler://pl%61y/x").err(), Some(DecodeError::UnknownPlugin));
    assert_eq!(parse(b"handler://pl?ay/x").err(), Some(DecodeError::UnknownPlugin));
}

#[test]
fn unknown_plugin_comes_before_a_bad_target() {
    assert_eq!(parse(b"handler://nothing/%zz").err(), Some(DecodeError::UnknownPlugin));
    assert_eq!(parse(b"handler://nothing/").err(), Some(DecodeError::UnknownPlugin));
}

#[test]
fn empty_target_is_invalid_target() {
    assert_eq!(parse(b"handler://play").err(), Some(DecodeError::InvalidTarget));
    assert_eq!(parse(b"handler://play/").err(), Some(DecodeError::InvalidTarget));
    assert_eq!(parse(b"handler://play/?a=1").err(), Some(DecodeError::InvalidTarget));
    assert_eq!(parse(b"handler://play?a=1").err(), Some(DecodeError::InvalidTarget));
}

#[test]
fn target_that_is_not_text_is_invalid_target() {
    assert_eq!(parse(b"handler://play/%FF").err(), Some(DecodeError::InvalidTarget));
    assert_eq!(parse(b"handler://play/abc%C3").err(), Some(DecodeError::InvalidTarget));
    assert_eq!(parse(b"handler://play/%ED%A0%80").err(), Some(DecodeError::InvalidTarget));
    assert_eq!(parse(b"handler://play/a\xffb").err(), Some(DecodeError::InvalidTarget));
}

#[test]
fn target_of_several_bytes_per_character_is_accepted() {
    let request = parse(b"handler://play/%C3%A9t%C3%A9%20%E2%82%AC").unwrap();
    assert_eq!(request.target().as_slice(), "été €".as_bytes());
}

#[test]
fn malformed_escape_is_decode_failure() {
    assert_eq!(parse(b"handler://play/%").err(), Some(DecodeError::DecodeFailure));
    assert_eq!(parse(b"handler://play/abc%4").err(), Some(DecodeError::DecodeFailure));
    assert_eq!(parse(b"handler://play/%zz").err(), Some(DecodeError::DecodeFailure));
    assert_eq!(parse(b"handler://play/%4g").err(), Some(DecodeError::DecodeFailure));
    assert_eq!(parse(b"handler://play/x?a=%").err(), Some(DecodeError::DecodeFailure));
    assert_eq!(parse(b"handler://play/x?%1=b").err(), Some(DecodeError::DecodeFailure));
    assert_eq!(parse(b"handler://play/x?a=1&b=%G0").err(), Some(DecodeError::DecodeFailure));
}

#[test]
fn option_that_is_not_text_is_decode_failure() {
    assert_eq!(parse(b"handler://play/x?a=%FF").err(), Some(DecodeError::DecodeFailure));
    assert_eq!(parse(b"handler://play/x?%FF=a").err(), Some(DecodeError::DecodeFailure));
}

#[test]
fn bad_target_comes_before_bad_options() {
    assert_eq!(parse(b"handler://play/?a=%").err(), Some(DecodeError::InvalidTarget));
    assert_eq!(parse(b"handler://play/%FF?a=%").err(), Some(DecodeError::InvalidTarget));
}

#[test]
fn encoded_question_mark_stays_in_the_target() {
    let request = parse(b"handler://play/a%3Fb%3Dc?d=e").unwrap();
    assert_eq!(request.target().as_slice(), b"a?b=c");
    assert_eq!(request.options().len(), 1);
    assert_eq!(request.options().get(b"d").unwrap().as_slice(), b"e");
    assert!(request.options().get(b"b").is_none());
}

#[test]
fn only_the_first_question_mark_splits() {
    let request = parse(b"handler://play/x?a=1?2&b=?").unwrap();
    assert_eq!(request.target().as_slice(), b"x");
    assert_eq!(request.options().get(b"a").unwrap().as_slice(), b"1?2");
    assert_eq!(request.options().get(b"b").unwrap().as_slice(), b"?");
}

#[test]
fn target_keeps_its_slashes() {
    let request = parse(b"handler://play/a/b/c").unwrap();
    assert_eq!(request.target().as_slice(), b"a/b/c");
}

#[test]
fn duplicate_key_keeps_the_last_value() {
    let request = parse(b"handler://play/x?a=1&a=2").unwrap();
    assert_eq!(request.options().len(), 1);
    assert_eq!(request.options().key_at(0).as_slice(), b"a");
    assert_eq!(request.options().value_at(0).as_slice(), b"2");
}

#[test]
fn duplicate_key_keeps_its_first_place() {
    let request = parse(b"handler://play/x?a=1&b=2&a=3").unwrap();
    assert_eq!(request.options().len(), 2);
    assert_eq!(request.options().key_at(0).as_slice(), b"a");
    assert_eq!(request.options().value_at(0).as_slice(), b"3");
    assert_eq!(request.options().key_at(1).as_slice(), b"b");
    assert_eq!(request.options().value_at(1).as_slice(), b"2");
}

#[test]
fn keys_and_values_are_decoded_each_on_its_own() {
    let request = parse(b"handler://play/x?k%3D1=v%26w&n=a%3Db").unwrap();
    assert_eq!(request.options().len(), 2);
    assert_eq!(request.options().get(b"k=1").unwrap().as_slice(), b"v&w");
    assert_eq!(request.options().get(b"n").unwrap().as_slice(), b"a=b");
}

#[test]
fn empty_pairs_are_skipped_and_missing_values_are_empty() {
    let request = parse(b"handler://play/x?&a=1&&flag&b=&").unwrap();
    assert_eq!(request.options().len(), 3);
    assert_eq!(request.options().get(b"a").unwrap().as_slice(), b"1");
    assert_eq!(request.options().get(b"flag").unwrap().as_slice(), b"");
    assert_eq!(request.options().get(b"b").unwrap().as_slice(), b"");
}

#[test]
fn empty_query_gives_no_options() {
    let request = parse(b"handler://play/x?").unwrap();
    assert_eq!(request.options().len(), 0);
    assert_eq!(parse_options(b"").unwrap().len(), 0);
}

#[test]
fn value_keeps_what_follows_its_first_equals_sign() {
    let options = parse_options(b"a=b=c").unwrap();
    assert_eq!(options.get(b"a").unwrap().as_slice(), b"b=c");
}

#[test]
fn plus_is_not_a_space() {
    let request = parse(b"handler://play/a+b").unwrap();
    assert_eq!(request.target().as_slice(), b"a+b");
}

#[test]
fn encoded_target_round_trips() {
    let targets: Vec<&[u8]> = vec![
        b"https://example.com/v?id=1",
        b"https://example.com/a b/c%d?x=1&y=2#frag",
        b"/home/user/My Videos/film.mkv",
        "https://example.com/été/€".as_bytes(),
        b"%",
        b"?",
        b"a",
    ];
    for target in targets {
        let request = parse(&raw_for(target)).unwrap();
        assert_eq!(request.plugin(), Plugin::Play);
        assert_eq!(request.target().as_slice(), target);
        assert_eq!(request.options().len(), 0);
    }
}

#[test]
fn encoded_target_round_trips_before_a_query() {
    let mut raw = raw_for(b"https://example.com/v?id=1&t=2");
    raw.extend_from_slice(b"?quality=720");
    let request = parse(&raw).unwrap();
    assert_eq!(request.target().as_slice(), b"https://example.com/v?id=1&t=2");
    assert_eq!(request.options().len(), 1);
    assert_eq!(request.options().get(b"quality").unwrap().as_slice(), b"720");
}

#[test]
fn every_byte_round_trips_through_percent_encoding() {
    let all: Vec<u8> = (0u8..=255u8).collect();
    assert_eq!(decode(&encode(&all)), Some(all));
}
