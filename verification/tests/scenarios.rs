//! End-to-end walks: a client line becomes a request, the dispatcher
//! answers, and the reply renders as the client would print it.

use drill_redis::client::{render, request_from_line};
use drill_redis::command::execute;
use drill_redis::db::Db;

fn run(db: &mut Db, now: u64, line: &str) -> String {
    let request = request_from_line(&line.as_bytes().to_vec());
    let reply = execute(request, db, now);
    let text = render(&reply);
    String::from_utf8(text).expect("reply was not text")
}

#[test]
fn ping_and_echo() {
    let mut db = Db::new();
    assert_eq!(run(&mut db, 10, "PING"), "PONG\n");
    assert_eq!(run(&mut db, 10, "PING hello"), "hello\n");
}

#[test]
fn set_get_del_cycle() {
    let mut db = Db::new();
    assert_eq!(run(&mut db, 10, "SET foo bar"), "OK\n");
    assert_eq!(run(&mut db, 10, "GET foo"), "bar\n");
    assert_eq!(run(&mut db, 10, "DEL foo"), "1\n");
    assert_eq!(run(&mut db, 10, "GET foo"), "(nil)\n");
}

#[test]
fn ttl_and_persist() {
    let mut db = Db::new();
    assert_eq!(run(&mut db, 10, "SET k v EX 100"), "OK\n");
    assert_eq!(run(&mut db, 10, "TTL k"), "100\n");
    assert_eq!(run(&mut db, 10, "PERSIST k"), "1\n");
    assert_eq!(run(&mut db, 10, "TTL k"), "-1\n");
}

#[test]
fn append_builds_value() {
    let mut db = Db::new();
    assert_eq!(run(&mut db, 10, "SET x 1"), "OK\n");
    assert_eq!(run(&mut db, 10, "APPEND x 23"), "3\n");
    assert_eq!(run(&mut db, 10, "GET x"), "123\n");
}

#[test]
fn conditional_set_walk() {
    let mut db = Db::new();
    assert_eq!(run(&mut db, 10, "SET y a NX"), "OK\n");
    assert_eq!(run(&mut db, 10, "SET y b NX"), "(nil)\n");
    assert_eq!(run(&mut db, 10, "GET y"), "a\n");
    assert_eq!(run(&mut db, 10, "SET y b XX GET"), "a\n");
    assert_eq!(run(&mut db, 10, "GET y"), "b\n");
}

#[test]
fn conditional_expire_walk() {
    let mut db = Db::new();
    assert_eq!(run(&mut db, 10, "EXPIRE missing 10"), "0\n");
    assert_eq!(run(&mut db, 10, "SET z 1"), "OK\n");
    assert_eq!(run(&mut db, 10, "EXPIRE z 10 NX"), "1\n");
    assert_eq!(run(&mut db, 10, "EXPIRE z 20 NX"), "0\n");
    assert_eq!(run(&mut db, 10, "EXPIRE z 5 GT"), "0\n");
    assert_eq!(run(&mut db, 10, "EXPIRE z 50 GT"), "1\n");
}

#[test]
fn lazy_expiry_across_time() {
    let mut db = Db::new();
    assert_eq!(run(&mut db, 1000, "SET k v EX 1"), "OK\n");
    assert_eq!(run(&mut db, 1500, "GET k"), "v\n");
    assert_eq!(run(&mut db, 2001, "GET k"), "(nil)\n");
    assert_eq!(run(&mut db, 2001, "TTL k"), "-2\n");
}

#[test]
fn pexpire_counts_milliseconds() {
    let mut db = Db::new();
    assert_eq!(run(&mut db, 1000, "SET k v"), "OK\n");
    assert_eq!(run(&mut db, 1000, "PEXPIRE k 500"), "1\n");
    assert_eq!(run(&mut db, 1000, "PTTL k"), "500\n");
    assert_eq!(run(&mut db, 1501, "GET k"), "(nil)\n");
}

#[test]
fn exists_counts_live_keys_with_repeats() {
    let mut db = Db::new();
    assert_eq!(run(&mut db, 10, "SET a 1"), "OK\n");
    assert_eq!(run(&mut db, 10, "EXISTS a a b"), "2\n");
    assert_eq!(run(&mut db, 10, "EXISTS b"), "0\n");
}

#[test]
fn getex_command_walk() {
    let mut db = Db::new();
    assert_eq!(run(&mut db, 10, "SET k v"), "OK\n");
    assert_eq!(run(&mut db, 10, "GETEX k EX 5"), "v\n");
    assert_eq!(run(&mut db, 10, "TTL k"), "5\n");
    assert_eq!(run(&mut db, 10, "GETEX k PERSIST"), "v\n");
    assert_eq!(run(&mut db, 10, "TTL k"), "-1\n");
    assert_eq!(run(&mut db, 10, "GETEX missing"), "(nil)\n");
}

#[test]
fn command_names_are_case_insensitive() {
    let mut db = Db::new();
    assert_eq!(run(&mut db, 10, "set foo bar"), "OK\n");
    assert_eq!(run(&mut db, 10, "get foo"), "bar\n");
}

#[test]
fn unknown_command_names_itself() {
    let mut db = Db::new();
    assert_eq!(
        run(&mut db, 10, "FLUSHALL"),
        "Unknown or disabled command 'FLUSHALL'\n"
    );
}

#[test]
fn arity_errors() {
    let mut db = Db::new();
    assert_eq!(run(&mut db, 10, "GET"), "wrong number of arguments for command\n");
    assert_eq!(run(&mut db, 10, "GET a b"), "wrong number of arguments for command\n");
    assert_eq!(run(&mut db, 10, "SET a"), "wrong number of arguments for command\n");
    assert_eq!(run(&mut db, 10, "DEL"), "wrong number of arguments for command\n");
    assert_eq!(run(&mut db, 10, "EXISTS"), "wrong number of arguments for command\n");
    assert_eq!(run(&mut db, 10, "SET a b EX"), "wrong number of arguments for command\n");
}

#[test]
fn syntax_errors() {
    let mut db = Db::new();
    assert_eq!(run(&mut db, 10, "SET a b BOGUS"), "syntax error\n");
    assert_eq!(run(&mut db, 10, "SET a b EX 5 KEEPTTL"), "syntax error\n");
    assert_eq!(run(&mut db, 10, "SET a b NX XX"), "syntax error\n");
    assert_eq!(run(&mut db, 10, "SET a b GET GET"), "syntax error\n");
    assert_eq!(run(&mut db, 10, "EXPIRE a 5 ZZ"), "syntax error\n");
    assert_eq!(run(&mut db, 10, "GETEX a EX 5 PERSIST"), "syntax error\n");
}

#[test]
fn integer_argument_errors() {
    let mut db = Db::new();
    assert_eq!(
        run(&mut db, 10, "EXPIRE a abc"),
        "value is not an integer or out of range\n"
    );
    assert_eq!(
        run(&mut db, 10, "SET a b EX abc"),
        "value is not an integer or out of range\n"
    );
}

#[test]
fn empty_request_is_protocol_error() {
    let mut db = Db::new();
    assert_eq!(run(&mut db, 10, ""), "protocol error\n");
}

#[test]
fn set_keepttl_scenario() {
    let mut db = Db::new();
    assert_eq!(run(&mut db, 1000, "SET k w EX 100"), "OK\n");
    assert_eq!(run(&mut db, 1000, "SET k v KEEPTTL"), "OK\n");
    assert_eq!(run(&mut db, 1000, "TTL k"), "100\n");
    assert_eq!(run(&mut db, 1000, "GET k"), "v\n");
}

#[test]
fn set_get_on_first_write_is_nil() {
    let mut db = Db::new();
    assert_eq!(run(&mut db, 10, "SET k v GET"), "(nil)\n");
    assert_eq!(run(&mut db, 10, "SET k w GET"), "v\n");
}

#[test]
fn expire_xx_walk() {
    let mut db = Db::new();
    assert_eq!(run(&mut db, 10, "SET k v"), "OK\n");
    assert_eq!(run(&mut db, 10, "EXPIRE k 10 XX"), "0\n");
    assert_eq!(run(&mut db, 10, "EXPIRE k 10"), "1\n");
    assert_eq!(run(&mut db, 10, "EXPIRE k 20 XX"), "1\n");
}

#[test]
fn expire_lt_walk() {
    let mut db = Db::new();
    assert_eq!(run(&mut db, 1000, "SET k v"), "OK\n");
    assert_eq!(run(&mut db, 1000, "EXPIRE k 10"), "1\n");
    assert_eq!(run(&mut db, 1000, "EXPIRE k 5 LT"), "1\n");
    assert_eq!(run(&mut db, 1000, "TTL k"), "5\n");
    assert_eq!(run(&mut db, 1000, "EXPIRE k 20 LT"), "0\n");
    assert_eq!(run(&mut db, 1000, "TTL k"), "5\n");
}
