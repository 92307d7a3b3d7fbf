use drill_redis::command::{self, CommandKind, TimeUnit};
use drill_redis::resp::encode;
use drill_redis::client::{render, request_from_line};
use drill_redis::handler::{handler_action, HandlerAction};
use drill_redis::resp::{decode, Data, DecodeError};

#[test]
fn registry_names_map_to_kinds() {
    assert_eq!(
        command::get::command(),
        (b"GET".to_vec(), CommandKind::Get)
    );
    assert_eq!(
        command::set::command(),
        (b"SET".to_vec(), CommandKind::SetCmd)
    );
    assert_eq!(
        command::ttl::command(TimeUnit::Second),
        (b"TTL".to_vec(), CommandKind::Ttl(TimeUnit::Second))
    );
    assert_eq!(
        command::ttl::command(TimeUnit::Millisecond),
        (b"PTTL".to_vec(), CommandKind::Ttl(TimeUnit::Millisecond))
    );
    assert_eq!(
        command::del::command(),
        (b"DEL".to_vec(), CommandKind::Del)
    );
    assert_eq!(
        command::exists_cmd::command(),
        (b"EXISTS".to_vec(), CommandKind::Exists)
    );
    assert_eq!(
        command::ping::command(),
        (b"PING".to_vec(), CommandKind::Ping)
    );
    assert_eq!(
        command::persist::command(),
        (b"PERSIST".to_vec(), CommandKind::Persist)
    );
    assert_eq!(
        command::append::command(),
        (b"APPEND".to_vec(), CommandKind::Append)
    );
    assert_eq!(
        command::getex::command(),
        (b"GETEX".to_vec(), CommandKind::GetEx)
    );
    assert_eq!(
        command::expire::command(TimeUnit::Second),
        (b"EXPIRE".to_vec(), CommandKind::Expire(TimeUnit::Second))
    );
    assert_eq!(
        command::expire::command(TimeUnit::Millisecond),
        (b"PEXPIRE".to_vec(), CommandKind::Expire(TimeUnit::Millisecond))
    );
}

#[test]
fn lookup_finds_each_name_and_refuses_others() {
    assert_eq!(command::lookup(&b"GET".to_vec()), Some(CommandKind::Get));
    assert_eq!(
        command::lookup(&b"PEXPIRE".to_vec()),
        Some(CommandKind::Expire(TimeUnit::Millisecond))
    );
    assert_eq!(command::lookup(&b"NOPE".to_vec()), None);
    // Lookup wants the uppercased form; the dispatcher uppercases first.
    assert_eq!(command::lookup(&b"get".to_vec()), None);
}

#[test]
fn handler_actions_follow_decode_outcomes() {
    let ok = decode(&b"+OK\r\n"[..], 0);
    assert_eq!(handler_action(&ok), HandlerAction::Reply);
    assert_eq!(
        handler_action(&Err::<(Data, usize), _>(DecodeError::ConnectionClosed)),
        HandlerAction::CloseClean
    );
    assert_eq!(
        handler_action(&Err::<(Data, usize), _>(DecodeError::ProtocolError)),
        HandlerAction::CloseError
    );
}

#[test]
fn encode_ok_pong_error_helpers() {
    assert_eq!(encode(&Data::ok()), b"+OK\r\n".to_vec());
    assert_eq!(encode(&Data::pong()), b"+PONG\r\n".to_vec());
    assert_eq!(encode(&Data::error("bad thing")), b"-ERR bad thing\r\n".to_vec());
}

#[test]
fn non_scalar_command_name_is_protocol_error() {
    let mut db = drill_redis::db::Db::new();
    let reply = command::execute(Data::Array(vec![Data::Integer(5)]), &mut db, 10);
    assert_eq!(reply, Data::Error(b"protocol error".to_vec()));
}

#[test]
fn non_scalar_key_is_protocol_error() {
    let mut db = drill_redis::db::Db::new();
    let request = Data::Array(vec![Data::Bulk(b"GET".to_vec()), Data::Integer(5)]);
    let reply = command::execute(request, &mut db, 10);
    assert_eq!(reply, Data::Error(b"protocol error".to_vec()));
}

#[test]
fn non_array_request_is_protocol_error() {
    let mut db = drill_redis::db::Db::new();
    let reply = command::execute(Data::Bulk(b"PING".to_vec()), &mut db, 10);
    assert_eq!(reply, Data::Error(b"protocol error".to_vec()));
}

#[test]
fn render_array_puts_each_element_on_its_own_line() {
    let reply = Data::Array(vec![
        Data::Bulk(b"a".to_vec()),
        Data::Integer(-7),
        Data::NullBulk,
    ]);
    assert_eq!(render(&reply), b"a\n-7\n(nil)\n".to_vec());
}

#[test]
fn render_null_array_is_nil() {
    assert_eq!(render(&Data::NullArray), b"(nil)\n".to_vec());
}

#[test]
fn request_from_line_splits_on_whitespace() {
    let line = b"  SET  key\tvalue ".to_vec();
    assert_eq!(
        request_from_line(&line),
        Data::Array(vec![
            Data::Bulk(b"SET".to_vec()),
            Data::Bulk(b"key".to_vec()),
            Data::Bulk(b"value".to_vec()),
        ])
    );
    assert_eq!(request_from_line(&b"".to_vec()), Data::Array(vec![]));
}
