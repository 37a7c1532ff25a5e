use teestatus::common::Player;
use teestatus::errors::RequestError;
use teestatus::fields::Cursor;
use teestatus::server::{read_players, InfoQuery, ServerInfo};

const EXTRA_TOKEN: u16 = 0x1234;
const TOKEN: u8 = 0x56;
const PACKED: i32 = 0x123456;

fn field(out: &mut Vec<u8>, text: &str) {
    out.extend_from_slice(text.as_bytes());
    out.push(0);
}

fn start(tag: &[u8; 4]) -> Vec<u8> {
    let mut out = vec![0xff; 10];
    out.extend_from_slice(tag);
    out
}

fn header(
    tag: &[u8; 4],
    token: i32,
    map: &str,
    game_type: &str,
    flags: i32,
    players: i32,
    max_players: i32,
    clients: i32,
    max_clients: i32,
) -> Vec<u8> {
    let mut out = start(tag);
    field(&mut out, &token.to_string());
    field(&mut out, "0.6.4");
    field(&mut out, "Test");
    field(&mut out, map);
    if tag == b"iext" {
        field(&mut out, "-12345");
        field(&mut out, "67890");
    }
    field(&mut out, game_type);
    field(&mut out, &flags.to_string());
    field(&mut out, &players.to_string());
    field(&mut out, &max_players.to_string());
    field(&mut out, &clients.to_string());
    field(&mut out, &max_clients.to_string());
    field(&mut out, "");
    out
}

fn player(out: &mut Vec<u8>, index: usize, extended: bool) {
    field(out, &format!("player{}", index));
    field(out, &format!("clan{}", index % 4));
    field(out, &format!("{}", 100 + index));
    field(out, &format!("-{}", index));
    field(out, if index % 3 == 0 { "0" } else { "1" });
    if extended {
        field(out, "");
    }
}

fn more(token: i32, sequence: i32, from: usize, to: usize) -> Vec<u8> {
    let mut out = start(b"iex+");
    field(&mut out, &token.to_string());
    field(&mut out, &sequence.to_string());
    field(&mut out, "");
    for i in from..to {
        player(&mut out, i, true);
    }
    out
}

fn main_with_players(clients: i32, from: usize, to: usize) -> Vec<u8> {
    let playing = (0..clients as usize).filter(|i| i % 3 != 0).count() as i32;
    let mut out = header(b"iext", PACKED, "Multeasymap", "DDraceNetwork", 0, playing, 63, clients, 63);
    for i in from..to {
        player(&mut out, i, true);
    }
    out
}

fn names(players: &[Player]) -> Vec<String> {
    players.iter().map(|p| p.name.clone()).collect()
}

#[test]
fn server_it_works() {
    let data = main_with_players(63, 0, 24);
    let data_more = more(PACKED, 1, 24, 63);
    let mut seen = vec![0];
    let mut info = ServerInfo::parse_main(&data, EXTRA_TOKEN, TOKEN).unwrap();
    info.parse_more(&data_more, EXTRA_TOKEN, TOKEN, &mut seen);

    assert_eq!(info.client_count, 63);
    assert_eq!(info.game_type, "DDraceNetwork");
    assert_eq!(info.max_player_count, 63);
    assert_eq!(info.max_client_count, 63);
    assert_eq!(info.map, "Multeasymap");
    assert_eq!(info.players.len(), info.client_count as usize);
    assert_eq!(
        info.players.iter().filter(|x| !x.is_spectator).count(),
        info.player_count as usize
    );
}

#[test]
fn server_v2_it_works() {
    let mut data = header(b"inf3", PACKED, "dm1", "DM", 1, 1, 16, 1, 16);
    player(&mut data, 7, false);
    let info = ServerInfo::parse_main(&data, EXTRA_TOKEN, TOKEN).unwrap();
    assert_eq!(info.players.len(), 1);
    assert_eq!(info.players[0].name, "player7");
    assert!(info.password);
}

#[test]
fn main_reply_round_trip() {
    let data = header(b"inf3", PACKED, "dm1", "DM", 0, 2, 4, 2, 4);
    let info = ServerInfo::parse_main(&data, EXTRA_TOKEN, TOKEN).unwrap();
    assert_eq!(info.version, "0.6.4");
    assert_eq!(info.token, PACKED);
    assert_eq!(info.name, "Test");
    assert_eq!(info.map, "dm1");
    assert_eq!(info.game_type, "DM");
    assert!(!info.password);
    assert_eq!(info.player_count, 2);
    assert_eq!(info.max_player_count, 4);
    assert_eq!(info.client_count, 2);
    assert_eq!(info.max_client_count, 4);
    assert_eq!(info.map_crc, None);
    assert_eq!(info.map_size, None);
    assert!(info.players.is_empty());
    assert!(!info.is_extended());
    assert!(!info.is_complete());
}

#[test]
fn extended_reply_has_map_details_and_reserved_fields() {
    let mut data = header(b"iext", PACKED, "dm1", "DM", 3, 2, 4, 2, 4);
    player(&mut data, 1, true);
    player(&mut data, 3, true);
    let info = ServerInfo::parse_main(&data, EXTRA_TOKEN, TOKEN).unwrap();
    assert_eq!(info.map_crc, Some(-12345));
    assert_eq!(info.map_size, Some(67890));
    assert!(info.password);
    assert!(info.is_extended());
    assert!(info.is_complete());
    assert_eq!(info.players.len(), 2);
    let p = &info.players[0];
    assert_eq!(p.name, "player1");
    assert_eq!(p.clan, "clan1");
    assert_eq!(p.country, 101);
    assert_eq!(p.score, -1);
    assert!(!p.is_spectator);
    assert_eq!(p.reserved, Some(String::new()));
    let p = &info.players[1];
    assert_eq!(p.name, "player3");
    assert_eq!(p.score, -3);
    assert!(p.is_spectator);
}

#[test]
fn legacy_players_have_no_reserved_field() {
    let mut data = header(b"dtsf", PACKED, "dm1", "DM", 2, 2, 4, 2, 4);
    player(&mut data, 1, false);
    player(&mut data, 2, false);
    let info = ServerInfo::parse_main(&data, EXTRA_TOKEN, TOKEN).unwrap();
    assert!(!info.password);
    assert_eq!(names(&info.players), vec!["player1", "player2"]);
    assert_eq!(info.players[0].reserved, None);
}

#[test]
fn main_and_more_give_all_63_players_in_order() {
    let data = main_with_players(63, 0, 10);
    let mut query = InfoQuery::begin(&data, EXTRA_TOKEN, TOKEN).unwrap();
    assert!(!query.is_done());
    assert_eq!(query.info.players.len(), 10);
    assert!(query.on_more(&more(PACKED, 1, 10, 40)));
    assert!(!query.is_done());
    assert!(query.on_more(&more(PACKED, 2, 40, 63)));
    assert!(query.is_done());
    assert_eq!(query.attempts, 2);
    assert_eq!(query.seen, vec![0, 1, 2]);
    let info = query.finish();
    assert_eq!(info.players.len(), 63);
    let expected: Vec<String> = (0..63).map(|i| format!("player{}", i)).collect();
    assert_eq!(names(&info.players), expected);
}

#[test]
fn more_with_wrong_token_is_discarded() {
    let data = main_with_players(4, 0, 2);
    let mut seen = vec![0];
    let mut info = ServerInfo::parse_main(&data, EXTRA_TOKEN, TOKEN).unwrap();
    assert!(!info.parse_more(&more(PACKED + 1, 1, 2, 4), EXTRA_TOKEN, TOKEN, &mut seen));
    assert_eq!(info.players.len(), 2);
    assert_eq!(seen, vec![0]);
    assert!(info.parse_more(&more(PACKED, 1, 2, 4), EXTRA_TOKEN, TOKEN, &mut seen));
    assert_eq!(names(&info.players), vec!["player0", "player1", "player2", "player3"]);
    assert_eq!(seen, vec![0, 1]);
}

#[test]
fn more_with_repeated_sequence_is_skipped() {
    let data = main_with_players(6, 0, 2);
    let mut seen = vec![0];
    let mut info = ServerInfo::parse_main(&data, EXTRA_TOKEN, TOKEN).unwrap();
    let packet = more(PACKED, 1, 2, 4);
    assert!(info.parse_more(&packet, EXTRA_TOKEN, TOKEN, &mut seen));
    assert!(!info.parse_more(&packet, EXTRA_TOKEN, TOKEN, &mut seen));
    assert_eq!(info.players.len(), 4);
    assert_eq!(seen, vec![0, 1]);
    assert!(!info.parse_more(&more(PACKED, 0, 4, 6), EXTRA_TOKEN, TOKEN, &mut seen));
    assert_eq!(info.players.len(), 4);
    assert!(info.parse_more(&more(PACKED, 2, 4, 6), EXTRA_TOKEN, TOKEN, &mut seen));
    assert_eq!(info.players.len(), 6);
}

#[test]
fn players_beyond_the_client_count_are_not_read() {
    let data = main_with_players(2, 0, 5);
    let info = ServerInfo::parse_main(&data, EXTRA_TOKEN, TOKEN).unwrap();
    assert_eq!(names(&info.players), vec!["player0", "player1"]);

    let data = main_with_players(3, 0, 1);
    let mut seen = vec![0];
    let mut info = ServerInfo::parse_main(&data, EXTRA_TOKEN, TOKEN).unwrap();
    assert!(info.parse_more(&more(PACKED, 1, 1, 9), EXTRA_TOKEN, TOKEN, &mut seen));
    assert_eq!(names(&info.players), vec!["player0", "player1", "player2"]);
}

#[test]
fn negative_client_count_asks_for_no_player() {
    let mut data = header(b"inf3", PACKED, "dm1", "DM", 0, 0, 4, -3, 4);
    player(&mut data, 0, false);
    let info = ServerInfo::parse_main(&data, EXTRA_TOKEN, TOKEN).unwrap();
    assert!(info.players.is_empty());
    assert!(info.is_complete());
}

#[test]
fn incomplete_player_record_stops_the_roster() {
    let mut data = main_with_players(5, 0, 2);
    field(&mut data, "half");
    field(&mut data, "clan");
    data.extend_from_slice(b"12");
    let info = ServerInfo::parse_main(&data, EXTRA_TOKEN, TOKEN).unwrap();
    assert_eq!(info.client_count, 5);
    assert_eq!(names(&info.players), vec!["player0", "player1"]);

    let mut data = main_with_players(5, 0, 1);
    field(&mut data, "bad");
    field(&mut data, "clan");
    field(&mut data, "x");
    field(&mut data, "1");
    field(&mut data, "1");
    field(&mut data, "");
    player(&mut data, 4, true);
    let info = ServerInfo::parse_main(&data, EXTRA_TOKEN, TOKEN).unwrap();
    assert_eq!(names(&info.players), vec!["player0"]);
}

#[test]
fn main_token_mismatch_is_an_error_with_both_pairs() {
    let data = header(b"inf3", 0x0abcde, "dm1", "DM", 0, 2, 4, 2, 4);
    let err = ServerInfo::parse_main(&data, EXTRA_TOKEN, TOKEN).unwrap_err();
    assert_eq!(
        err,
        RequestError::TokenError {
            wanted_extra_token: 0x1234,
            wanted_token: 0x56,
            received_extra_token: 0x0abc,
            received_token: 0xde,
        }
    );
    assert!(InfoQuery::begin(&data, EXTRA_TOKEN, TOKEN).is_err());
}

#[test]
fn short_or_truncated_main_reply_is_missing() {
    assert_eq!(
        ServerInfo::parse_main(&[], EXTRA_TOKEN, TOKEN).unwrap_err(),
        RequestError::Missing
    );
    assert_eq!(
        ServerInfo::parse_main(&[0xff; 13], EXTRA_TOKEN, TOKEN).unwrap_err(),
        RequestError::Missing
    );
    let data = header(b"inf3", PACKED, "dm1", "DM", 0, 2, 4, 2, 4);
    let cut = &data[..data.len() - 1];
    assert_eq!(
        ServerInfo::parse_main(cut, EXTRA_TOKEN, TOKEN).unwrap_err(),
        RequestError::Missing
    );
}

#[test]
fn invalid_text_is_a_decode_error() {
    let mut data = start(b"inf3");
    field(&mut data, &PACKED.to_string());
    data.extend_from_slice(&[0xff, 0xfe, 0]);
    assert_eq!(
        ServerInfo::parse_main(&data, EXTRA_TOKEN, TOKEN).unwrap_err(),
        RequestError::DecodeError
    );
}

#[test]
fn invalid_number_is_a_parse_error() {
    let mut data = start(b"inf3");
    field(&mut data, "12x");
    assert_eq!(
        ServerInfo::parse_main(&data, EXTRA_TOKEN, TOKEN).unwrap_err(),
        RequestError::ParseError
    );
}

#[test]
fn cursor_reads_fields_in_order() {
    let data = b"abc\0-42\0+7\0\0rest";
    let mut c = Cursor::new(0);
    assert_eq!(c.read_str(data), "abc");
    assert_eq!(c.pos, 4);
    assert_eq!(c.read_int(data), -42);
    assert_eq!(c.read_int(data), 7);
    assert_eq!(c.read_data(data), b"");
    assert_eq!(c.pos, 12);
    assert!(c.is_ok());
    assert_eq!(c.read_data(data), b"");
    assert_eq!(c.failure, Some(RequestError::Missing));
    assert_eq!(c.pos, 12);
    assert_eq!(c.read_str(data), "");
    assert_eq!(c.read_int(data), 0);
    assert_eq!(c.failure, Some(RequestError::Missing));

    let mut beyond = Cursor::new(99);
    assert_eq!(beyond.read_str(data), "");
    assert_eq!(beyond.failure, Some(RequestError::Missing));
    assert_eq!(beyond.pos, 99);
}

#[test]
fn cursor_decodes_text_beyond_ascii() {
    let data = "h\u{e9}llo \u{4e16}\u{754c}\0".as_bytes();
    let mut c = Cursor::new(0);
    assert_eq!(c.read_str(data), "h\u{e9}llo \u{4e16}\u{754c}");
    assert!(c.is_ok());
    assert_eq!(c.pos, data.len());
}

#[test]
fn cursor_numbers_at_the_edges() {
    let read = |text: &str| {
        let mut data = text.as_bytes().to_vec();
        data.push(0);
        let mut c = Cursor::new(0);
        let value = c.read_int(&data);
        (value, c.failure, c.pos)
    };
    assert_eq!(read("2147483647"), (2147483647, None, 11));
    assert_eq!(read("-2147483648"), (-2147483648, None, 12));
    assert_eq!(read("007"), (7, None, 4));
    assert_eq!(read("-0"), (0, None, 3));
    assert_eq!(read("2147483648"), (0, Some(RequestError::ParseError), 0));
    assert_eq!(read("-2147483649"), (0, Some(RequestError::ParseError), 0));
    assert_eq!(read(""), (0, Some(RequestError::ParseError), 0));
    assert_eq!(read("-"), (0, Some(RequestError::ParseError), 0));
    assert_eq!(read("+"), (0, Some(RequestError::ParseError), 0));
    assert_eq!(read(" 1"), (0, Some(RequestError::ParseError), 0));
    assert_eq!(read("1 "), (0, Some(RequestError::ParseError), 0));
    assert_eq!(read("--1"), (0, Some(RequestError::ParseError), 0));
    assert_eq!(read("\u{664}"), (0, Some(RequestError::ParseError), 0));
}

#[test]
fn read_players_appends_to_what_is_there() {
    let mut data = Vec::new();
    for i in 0..3 {
        player(&mut data, i, false);
    }
    let mut players = Vec::new();
    read_players(&data, Cursor::new(0), false, 1, &mut players);
    assert_eq!(names(&players), vec!["player0"]);
    read_players(&data, Cursor::new(0), false, 5, &mut players);
    assert_eq!(names(&players), vec!["player0", "player0", "player1", "player2"]);
    read_players(&data, Cursor::new(0), false, 0, &mut players);
    assert_eq!(players.len(), 4);
}

#[test]
fn query_stops_at_the_ceiling_of_six() {
    let data = main_with_players(10, 0, 2);
    let mut query = InfoQuery::begin(&data, EXTRA_TOKEN, TOKEN).unwrap();
    for round in 0..6 {
        assert!(!query.is_done());
        assert_eq!(query.attempts, round);
        assert!(!query.on_more(&[]));
    }
    assert!(query.is_done());
    assert_eq!(query.attempts, 6);
    assert!(!query.on_more(&more(PACKED, 1, 2, 10)));
    assert_eq!(query.attempts, 6);
    assert_eq!(query.info.players.len(), 2);
    assert_eq!(query.finish().client_count, 10);
}

#[test]
fn complete_main_reply_needs_no_more() {
    let data = main_with_players(2, 0, 2);
    let mut query = InfoQuery::begin(&data, EXTRA_TOKEN, TOKEN).unwrap();
    assert!(query.is_done());
    assert_eq!(query.seen, vec![0]);
    assert!(!query.on_more(&more(PACKED, 1, 2, 4)));
    assert_eq!(query.attempts, 0);
}

#[test]
fn more_with_another_tag_is_still_decoded() {
    let data = main_with_players(3, 0, 1);
    let mut seen = vec![0];
    let mut info = ServerInfo::parse_main(&data, EXTRA_TOKEN, TOKEN).unwrap();
    let mut packet = more(PACKED, 5, 1, 3);
    assert!(ServerInfo::is_more_packet(&packet));
    packet[10..14].copy_from_slice(b"what");
    assert!(!ServerInfo::is_more_packet(&packet));
    assert!(!ServerInfo::is_more_packet(b"iex+"));
    assert!(info.parse_more(&packet, EXTRA_TOKEN, TOKEN, &mut seen));
    assert_eq!(info.players.len(), 3);
    assert_eq!(seen, vec![0, 5]);
}

#[test]
fn request_for_status_has_no_prefix_and_a_token() {
    let (buf, extra_token, token) = ServerInfo::create_request();
    assert_eq!(buf.len(), 13);
    assert_eq!(u16::from(buf[0]) * 256 + u16::from(buf[1]), extra_token);
    assert_eq!(&buf[2..8], &[0, 0, 0xff, 0xff, 0xff, 0xff][..]);
    assert_eq!(&buf[8..12], b"gie3");
    assert_eq!(buf[12], token);
}

#[test]
fn buffers_are_two_of_1400_zero_bytes() {
    let buffers = ServerInfo::create_buffers();
    assert_eq!(buffers.len(), 2);
    for b in &buffers {
        assert_eq!(b.len(), 1400);
        assert!(b.iter().all(|x| *x == 0));
    }
}

#[test]
fn errors_say_what_went_wrong() {
    assert_eq!(RequestError::DecodeError.message(), "decode error");
    assert_eq!(RequestError::ParseError.message(), "parse error");
    assert_eq!(RequestError::IoError.message(), "io error");
    assert_eq!(RequestError::Missing.message(), "missing data");
    let mismatch = RequestError::TokenError {
        wanted_extra_token: 1,
        wanted_token: 2,
        received_extra_token: 3,
        received_token: 4,
    };
    assert_eq!(mismatch.message(), "token received by server is invalid");
}
