use hamelin::codec::{write_line, LineCodec, LineRead, LineWrite};
use hamelin::http_front::{http_status, route_request, HttpMethod};
use hamelin::irc_front::{irc_client_uri, irc_spawn_env, reply_target, RouteTable};
use hamelin::pump::{
    on_child_read, on_peer_read, relay_line, relay_ready, ChildAction, PeerAction, RelayStep,
};
use hamelin::session::Hamelin;
use hamelin::transport::MemTransport;

#[test]
fn post_spawns_with_path_in_environment() {
    let path = "/foo".to_string();
    let env = route_request(HttpMethod::Post, &path).expect("POST must be served");
    assert_eq!(env[0], ("H-TYPE".to_string(), "HAMELIN.RS-HTTP-POST-0.1".to_string()));
    assert_eq!(env[1], ("H-CLIENT".to_string(), "/foo".to_string()));
    assert_eq!(env[2], ("H-URI".to_string(), "/foo".to_string()));
    assert_eq!(http_status(HttpMethod::Post), 200);

    // The full launch environment still ends with the version tag.
    let h = Hamelin::new("cat", None);
    let p = h.spawn_plan_with_env(&env);
    assert_eq!(p.env.len(), 4);
    assert_eq!(p.env[2], ("H-URI".to_string(), "/foo".to_string()));
    assert_eq!(p.env[3], ("H-VERSION".to_string(), "hamelin.rs".to_string()));
}

#[test]
fn get_is_served_too() {
    let path = "/".to_string();
    assert!(route_request(HttpMethod::Get, &path).is_some());
    assert_eq!(http_status(HttpMethod::Get), 200);
}

#[test]
fn unsupported_method_is_refused_without_a_child() {
    let path = "/".to_string();
    assert!(route_request(HttpMethod::Other, &path).is_none());
    assert_eq!(http_status(HttpMethod::Other), 404);
}

#[test]
fn http_post_body_reaches_child_and_reply_comes_back() {
    // POST /foo with body "ping": the body goes to the child as one
    // line followed by end of input; the child answers "pong".
    let mut stdin = MemTransport::open(Vec::new(), 16, 16);
    assert_eq!(write_line(&mut stdin, "ping"), LineWrite::Done);
    assert_eq!(stdin.sent().as_slice(), b"ping\n");

    let mut stdout = MemTransport::closed(b"pong\n".to_vec(), 16, 16);
    let mut c = LineCodec::new();
    match c.read_line(&mut stdout) {
        LineRead::Line(s) => assert_eq!(s, "pong"),
        other => panic!("unexpected {:?}", other),
    }
    assert_eq!(c.read_line(&mut stdout), LineRead::Eof);
}

#[test]
fn pump_decisions_follow_the_read() {
    assert_eq!(
        on_peer_read(LineRead::Line("hi".to_string())),
        PeerAction::ForwardToChild("hi".to_string())
    );
    assert_eq!(on_peer_read(LineRead::WouldBlock), PeerAction::Yield);
    assert_eq!(on_peer_read(LineRead::Eof), PeerAction::BeginDrain);
    assert_eq!(on_peer_read(LineRead::Encoding), PeerAction::Terminate);

    assert_eq!(
        on_child_read(LineRead::Line("out".to_string())),
        ChildAction::ForwardToPeer("out".to_string())
    );
    assert_eq!(on_child_read(LineRead::WouldBlock), ChildAction::Yield);
    assert_eq!(on_child_read(LineRead::Eof), ChildAction::Finish);
    assert_eq!(on_child_read(LineRead::Encoding), ChildAction::Finish);
}

#[test]
fn relay_moves_each_record_with_its_frame() {
    let mut codec = LineCodec::new();
    let mut from = MemTransport::closed(b"one\ntwo\n".to_vec(), 8, 8);
    let mut to = MemTransport::open(Vec::new(), 8, 8);
    assert_eq!(relay_line(&mut codec, &mut from, &mut to), RelayStep::Forwarded);
    assert_eq!(to.sent().as_slice(), b"one\n");
    assert_eq!(relay_line(&mut codec, &mut from, &mut to), RelayStep::Forwarded);
    assert_eq!(to.sent().as_slice(), b"one\ntwo\n");
    assert_eq!(relay_line(&mut codec, &mut from, &mut to), RelayStep::SourceDone);
    assert_eq!(to.sent().as_slice(), b"one\ntwo\n");
}

#[test]
fn relay_ready_moves_every_ready_record() {
    let mut codec = LineCodec::new();
    let mut from = MemTransport::open(b"a\nb\nc\npartial".to_vec(), 64, 64);
    let mut to = MemTransport::open(Vec::new(), 64, 64);
    let (step, n) = relay_ready(&mut codec, &mut from, &mut to, 16);
    assert_eq!(step, RelayStep::Yielded);
    assert_eq!(n, 3);
    assert_eq!(to.sent().as_slice(), b"a\nb\nc\n");
    // Everything queued was pulled in; the partial record waits in
    // the codec's buffer.
    assert_eq!(from.pending(), 0);
}

#[test]
fn relay_drops_only_the_broken_record() {
    let mut codec = LineCodec::new();
    let mut from = MemTransport::open(b"\xff\nok\n".to_vec(), 16, 16);
    let mut to = MemTransport::open(Vec::new(), 16, 16);
    assert_eq!(relay_line(&mut codec, &mut from, &mut to), RelayStep::Broken);
    assert!(to.sent().is_empty());
    assert_eq!(relay_line(&mut codec, &mut from, &mut to), RelayStep::Forwarded);
    assert_eq!(to.sent().as_slice(), b"ok\n");
}

#[test]
fn channel_message_answers_to_the_channel() {
    let target = "#room".to_string();
    let nick = "alice".to_string();
    assert_eq!(reply_target(&target, Some(&nick)), "#room");
}

#[test]
fn direct_message_answers_to_the_sender() {
    let target = "mybot".to_string();
    let nick = "bob".to_string();
    assert_eq!(reply_target(&target, Some(&nick)), "bob");
}

#[test]
fn sourceless_message_falls_back_to_its_target() {
    let target = "mybot".to_string();
    assert_eq!(reply_target(&target, None), "mybot");
}

#[test]
fn one_session_per_target() {
    // The first message for "#room" creates a route; the second
    // finds it again and the table stays at one entry.
    let mut table: RouteTable<u32> = RouteTable::new();
    let room = "#room".to_string();
    assert!(table.find(&room).is_none());
    table.insert(room.clone(), 7);
    assert_eq!(table.len(), 1);

    let i = table.find(&room).expect("the route must be found");
    assert_eq!(*table.session_at(i), 7);
    assert_eq!(table.len(), 1);

    *table.session_at_mut(i) = 8;
    assert_eq!(*table.session_at(i), 8);

    let other = "bob".to_string();
    assert!(table.find(&other).is_none());
    table.insert(other, 9);
    assert_eq!(table.len(), 2);
}

#[test]
fn client_uri_names_scheme_host_port_and_target() {
    let server = "irc.example.net".to_string();
    let room = "#room".to_string();
    assert_eq!(
        irc_client_uri(false, &server, 6667, &room),
        "irc://irc.example.net:6667/#room"
    );
    assert_eq!(
        irc_client_uri(true, &server, 6697, &room),
        "ircs://irc.example.net:6697/#room"
    );
    let bob = "bob".to_string();
    assert_eq!(irc_client_uri(false, &server, 80, &bob), "irc://irc.example.net:80/bob");
}

#[test]
fn response_body_frames_each_line() {
    let lines = vec!["pong".to_string(), "".to_string(), "café".to_string()];
    let body = hamelin::http_front::response_body(&lines);
    assert_eq!(body, b"pong\n\ncaf\xc3\xa9\n".to_vec());
}

#[test]
fn irc_environment_tags_the_session() {
    let client = "irc://irc.example.net:6667/#room".to_string();
    let env = irc_spawn_env(&client);
    assert_eq!(env[0], ("H-TYPE".to_string(), "HAMELIN.RS-IRC-0.1".to_string()));
    assert_eq!(env[1], ("H-CLIENT".to_string(), client));
}
