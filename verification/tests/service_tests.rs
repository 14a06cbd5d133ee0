use kv::{dispatch, CommandRequest, CommandResponse, KvPair, MemTable, Notify, NotifyMut,
    ServiceInner, Value};

fn assert_res_ok(mut res: CommandResponse, values: &[Value], pairs: &[KvPair]) {
    res.pairs.sort_by(|a, b| a.partial_cmp(b).unwrap());
    assert_eq!(res.status, 200);
    assert_eq!(res.message, "");
    assert_eq!(res.values, values);
    assert_eq!(res.pairs, pairs);
}

fn assert_res_error(res: CommandResponse, code: u32, msg: &str) {
    assert_eq!(res.status, code);
    assert!(res.message.contains(msg));
    assert_eq!(res.values, &[]);
    assert_eq!(res.pairs, &[]);
}

#[test]
fn hset_should_work() {
    let mut store = MemTable::new();
    let cmd = CommandRequest::new_hset("t1", "hello", Value::from_string("world"));
    let res = dispatch(cmd.clone(), &mut store);
    assert_res_ok(res, &[Value::default()], &[]);

    let res = dispatch(cmd, &mut store);
    assert_res_ok(res, &[Value::from_string("world")], &[]);
}

#[test]
fn hget_should_work() {
    let mut store = MemTable::new();
    let cmd = CommandRequest::new_hset("score", "u1", Value::from_integer(10));
    let _ = dispatch(cmd, &mut store);

    let cmd = CommandRequest::new_hget("score", "u1");
    let res = dispatch(cmd, &mut store);

    assert_res_ok(res, &[Value::from_integer(10)], &[]);
}

#[test]
fn hget_with_non_exist_key_should_return_404() {
    let mut store = MemTable::new();
    let cmd = CommandRequest::new_hget("score", "u1");
    let res = dispatch(cmd, &mut store);

    assert_res_error(res, 404, "Not found");
}

#[test]
fn hgetall_should_work() {
    let mut store = MemTable::new();
    let cmds = vec![
        CommandRequest::new_hset("score", "u1", Value::from_integer(10)),
        CommandRequest::new_hset("score", "u2", Value::from_integer(8)),
        CommandRequest::new_hset("score", "u3", Value::from_integer(11)),
        CommandRequest::new_hset("score", "u1", Value::from_integer(6)),
    ];

    for cmd in cmds {
        dispatch(cmd, &mut store);
    }

    let cmd = CommandRequest::new_hgetall("score");
    let res = dispatch(cmd, &mut store);
    let pairs = &[
        KvPair::new("u1", Value::from_integer(6)),
        KvPair::new("u2", Value::from_integer(8)),
        KvPair::new("u3", Value::from_integer(11)),
    ];

    assert_res_ok(res, &[], pairs);
}

#[test]
fn hdel_should_work() {
    let mut store = MemTable::new();
    let cmd = CommandRequest::new_hset("score", "u1", Value::from_integer(60));
    let _ = dispatch(cmd, &mut store);
    let cmd = CommandRequest::new_hset("score", "u2", Value::from_integer(74));
    let _ = dispatch(cmd, &mut store);

    let cmd = CommandRequest::new_hdel("score", "u1");
    let res = dispatch(cmd, &mut store);

    assert_res_ok(res, &[Value::from_integer(60)], &[]);
}

#[test]
fn hdel_with_non_exist_key_should_return_404() {
    let mut store = MemTable::new();
    let cmd = CommandRequest::new_hset("score", "u1", Value::from_integer(56));
    let _ = dispatch(cmd, &mut store);

    let cmd = CommandRequest::new_hdel("score", "u2");
    let res = dispatch(cmd, &mut store);

    assert_res_error(res, 404, "Not found");
}

#[test]
fn service_should_work() {
    let mut service = ServiceInner::new(MemTable::default()).into_service();

    let res = service.execute(CommandRequest::new_hset("t1", "k1", Value::from_string("v1")));
    assert_res_ok(res, &[Value::default()], &[]);

    let res = service.execute(CommandRequest::new_hget("t1", "k1"));
    assert_res_ok(res, &[Value::from_string("v1")], &[]);
}

struct QuietRequestHook;

impl Notify<CommandRequest> for QuietRequestHook {
    fn notify(&self, _arg: &CommandRequest) {}
}

struct PrintRequestHook;

impl Notify<CommandRequest> for PrintRequestHook {
    fn notify(&self, _arg: &CommandRequest) {
        println!("Got: {:?}", "a request");
    }
}

struct PrintResponseHook;

impl Notify<CommandResponse> for PrintResponseHook {
    fn notify(&self, arg: &CommandResponse) {
        println!("{:?}", arg.status);
    }
}

struct CreatedStatusHook;

impl NotifyMut<CommandResponse> for CreatedStatusHook {
    fn spec_notify(&self, mut arg: CommandResponse) -> CommandResponse {
        arg.status = 201;
        arg
    }

    fn notify(&self, arg: &mut CommandResponse) {
        arg.status = 201;
    }
}

struct SentHook;

impl Notify<()> for SentHook {
    fn notify(&self, _arg: &()) {
        println!("Data was sent");
    }
}

#[test]
fn event_registration_should_work() {
    let mut service = ServiceInner::new(MemTable::default())
        .fn_received(Box::new(QuietRequestHook))
        .fn_received(Box::new(PrintRequestHook))
        .fn_executed(Box::new(PrintResponseHook))
        .fn_before_send(Box::new(CreatedStatusHook))
        .fn_after_send(Box::new(SentHook))
        .into_service();

    let res = service.execute(CommandRequest::new_hset("t1", "k1", Value::from_string("v1")));

    assert_eq!(res.status, 201);
    assert_eq!(res.message, "");
    assert_eq!(res.values, vec![Value::default()]);
    service.after_send();
}

struct PushMessageHook(char);

impl NotifyMut<CommandResponse> for PushMessageHook {
    fn spec_notify(&self, mut arg: CommandResponse) -> CommandResponse {
        arg.message.push(self.0);
        arg
    }

    fn notify(&self, arg: &mut CommandResponse) {
        arg.message.push(self.0);
    }
}

#[test]
fn hooks_run_in_registration_order() {
    let mut service = ServiceInner::new(MemTable::new())
        .fn_before_send(Box::new(PushMessageHook('a')))
        .fn_before_send(Box::new(PushMessageHook('b')))
        .into_service();

    let res = service.execute(CommandRequest::new_hset("t1", "k1", Value::from_string("v1")));
    assert_eq!(res.message, "ab");

    let res = service.execute(CommandRequest::new_hget("t1", "k1"));
    assert_eq!(res.message, "ab");
}

#[test]
fn empty_request_is_invalid_command() {
    let mut store = MemTable::new();
    let res = dispatch(CommandRequest { request_data: None }, &mut store);
    assert_res_error(res, 400, "Command is invalid");
}

#[test]
fn first_write_then_reads_scenario() {
    let mut store = MemTable::new();
    let res = dispatch(CommandRequest::new_hset("t1", "k1", Value::from_string("v1")),
        &mut store);
    assert_eq!(res.status, 200);
    assert_eq!(res.values, vec![Value::default()]);

    let res = dispatch(CommandRequest::new_hget("t1", "k1"), &mut store);
    assert_eq!(res.status, 200);
    assert_eq!(res.values, vec![Value::from_string("v1")]);

    let res = dispatch(CommandRequest::new_hget("t1", "missing"), &mut store);
    assert_eq!(res.status, 404);
    assert!(res.message.contains("Not found"));
}

#[test]
fn score_table_snapshot_scenario() {
    let mut store = MemTable::new();
    dispatch(CommandRequest::new_hset("score", "u1", Value::from_integer(10)), &mut store);
    dispatch(CommandRequest::new_hset("score", "u2", Value::from_integer(8)), &mut store);
    dispatch(CommandRequest::new_hset("score", "u3", Value::from_integer(11)), &mut store);

    let res = dispatch(CommandRequest::new_hgetall("score"), &mut store);
    let pairs = &[
        KvPair::new("u1", Value::from_integer(10)),
        KvPair::new("u2", Value::from_integer(8)),
        KvPair::new("u3", Value::from_integer(11)),
    ];
    assert_res_ok(res, &[], pairs);
}

#[test]
fn get_all_twice_is_identical() {
    let mut store = MemTable::new();
    dispatch(CommandRequest::new_hset("t", "a", Value::from_integer(1)), &mut store);
    dispatch(CommandRequest::new_hset("t", "b", Value::from_integer(2)), &mut store);

    let mut r1 = dispatch(CommandRequest::new_hgetall("t"), &mut store);
    let mut r2 = dispatch(CommandRequest::new_hgetall("t"), &mut store);
    r1.pairs.sort_by(|a, b| a.partial_cmp(b).unwrap());
    r2.pairs.sort_by(|a, b| a.partial_cmp(b).unwrap());
    assert_eq!(r1.pairs, r2.pairs);
}
