//! The server's state and what it does with each command it is sent.
//!
//! A server is either a master, which replicas copy, or a replica of some
//! master. Some replies only a master gives: a replica stays silent for them,
//! since what it reads comes from its master.

use std::collections::VecDeque;
use vstd::prelude::*;
use vstd::std_specs::vecdeque::VecDequeAdditionalSpecFns;
use vstd::utf8::encode_utf8;
use crate::digits::{decimal, decimal_bytes, parse_u128, parse_unsigned};
use crate::rdb::{rdb_payload, snapshot, RdbError};
use crate::resp::{resp_values, Resp, RespValue};
use crate::store::{clock_nanos, lookup, stored, value_of, InMem, StoreMap};
use crate::replication::{parse_replicaof, replica_host, replica_port};
use crate::text::{ascii_chars, string_from_ascii, text_eq};
use vstd::string::StringExecFns;

verus! {

broadcast use vstd::std_specs::vecdeque::group_vec_dequeue_axioms;

/// What the connection does after a command.
#[derive(PartialEq, Eq, Debug)]
pub enum NextOp {
    /// Read the next command.
    Read,
    /// Hand the connection to the replication pool and stop reading it.
    MoveToPool,
    /// Read the next command, and pass this one on to the replicas.
    ReadAndShare,
}

/// What a master knows of itself.
pub struct MasterInfo {
    master_replid: String,
    master_repl_offset: u32,
    replicas: usize,
}

/// What a replica knows of itself.
pub struct ReplicaInfo {
    master_host: String,
    master_port: u32,
    ack_bytes: u64,
}

/// The server's role.
pub enum Info {
    Master(MasterInfo),
    Replica(ReplicaInfo),
}

/// The server's state: its store and its role.
pub struct AppState {
    store: InMem,
    server_info: Info,
}

/// The model of a role.
pub enum RoleView {
    /// A master: its replication id and offset, and how many replicas it
    /// holds connections to.
    Master { replid: Seq<char>, offset: u32, replicas: nat },
    /// A replica: its master's host and port, and the bytes of commands it
    /// has processed (modulo 2^64).
    Replica { host: Seq<char>, port: u32, ack_bytes: u64 },
}

/// The model of the server's state.
pub struct AppView {
    pub store: StoreMap,
    pub role: RoleView,
}

impl AppState {
    /// The model of the state.
    pub closed spec fn model(&self) -> AppView {
        AppView {
            store: self.store@,
            role: match self.server_info {
                Info::Master(m) => RoleView::Master {
                    replid: m.master_replid@,
                    offset: m.master_repl_offset,
                    replicas: m.replicas as nat,
                },
                Info::Replica(r) => RoleView::Replica {
                    host: r.master_host@,
                    port: r.master_port,
                    ack_bytes: r.ack_bytes,
                },
            },
        }
    }
}

impl View for AppState {
    type V = AppView;

    open spec fn view(&self) -> AppView {
        self.model()
    }
}

/// The server is a master.
pub open spec fn is_master(a: AppView) -> bool {
    a.role is Master
}

/// The reply a server gives: nothing where only a master replies and the
/// server is a replica.
pub open spec fn reply_of(a: AppView, v: RespValue, master_only: bool) -> Option<RespValue> {
    if !is_master(a) && master_only {
        None
    } else {
        Some(v)
    }
}

/// The bytes a replica has processed; 0 for a master.
pub open spec fn ack_of(a: AppView) -> u64 {
    match a.role {
        RoleView::Master { .. } => 0,
        RoleView::Replica { ack_bytes, .. } => ack_bytes,
    }
}

/// The state after a replica counts `n` more processed bytes (a master does
/// not count).
pub open spec fn with_ack(a: AppView, n: usize) -> AppView {
    match a.role {
        RoleView::Master { .. } => a,
        RoleView::Replica { host, port, ack_bytes } => AppView {
            store: a.store,
            role: RoleView::Replica { host, port, ack_bytes: ack_bytes.wrapping_add(n as u64) },
        },
    }
}

/// The number of replicas a master holds; 0 for a replica.
pub open spec fn replicas_of(a: AppView) -> nat {
    match a.role {
        RoleView::Master { replicas, .. } => replicas,
        RoleView::Replica { .. } => 0,
    }
}

/// The state after one more replica connection joins the pool: a master
/// counts it, a replica holds no pool and is unchanged.
pub open spec fn pool_added(a: AppView) -> AppView {
    match a.role {
        RoleView::Master { replid, offset, replicas } => AppView {
            store: a.store,
            role: RoleView::Master { replid, offset, replicas: replicas + 1 },
        },
        RoleView::Replica { .. } => a,
    }
}

/// The state after `n` replica connections join the pool, one by one.
pub open spec fn pool_added_times(a: AppView, n: nat) -> AppView
    decreases n,
{
    if n == 0 {
        a
    } else {
        pool_added(pool_added_times(a, (n - 1) as nat))
    }
}

/// The text of the `INFO` reply.
pub open spec fn info_of(a: AppView) -> Seq<char> {
    match a.role {
        RoleView::Master { replid, offset, .. } => "role:master\nmaster_replid:"@ + replid
            + "\nmaster_repl_offset:"@ + ascii_chars(decimal(offset as nat)),
        RoleView::Replica { .. } => "role:slave"@,
    }
}

/// The replication id; empty for a replica.
pub open spec fn replid_of(a: AppView) -> Seq<char> {
    match a.role {
        RoleView::Master { replid, .. } => replid,
        RoleView::Replica { .. } => Seq::empty(),
    }
}

/// The command word: the first item, where it is a bulk string.
pub open spec fn command_word(list: Seq<RespValue>) -> Option<Seq<char>> {
    if list.len() > 0 && list[0] is BulkStr {
        Some(list[0]->BulkStr_0)
    } else {
        None
    }
}

/// The text of item `i`, where there is such an item and it is a string.
pub open spec fn arg_text(list: Seq<RespValue>, i: int) -> Option<Seq<char>> {
    if 0 <= i < list.len() {
        list[i].text()
    } else {
        None
    }
}

/// `ECHO` needs a string to echo; every other command is defined on any
/// arguments.
pub open spec fn command_defined(list: Seq<RespValue>) -> bool {
    match command_word(list) {
        Some(w) => (w == "echo"@ || w == "ECHO"@) ==> arg_text(list, 1) is Some,
        None => true,
    }
}

/// What a command does: the reply (where it sets one), the new state, what
/// the connection does next, and the header of a full resynchronisation to
/// send before the snapshot.
pub struct Outcome {
    pub reply: Option<Option<RespValue>>,
    pub state: AppView,
    pub next_op: NextOp,
    pub resync: Option<RespValue>,
}

/// An outcome without a resynchronisation.
pub open spec fn outcome(reply: Option<Option<RespValue>>, state: AppView, next_op: NextOp) -> Outcome {
    Outcome { reply, state, next_op, resync: None }
}

/// The reply after an outcome, given the reply before it.
pub open spec fn replied(o: Outcome, before: Option<RespValue>) -> Option<RespValue> {
    match o.reply {
        Some(r) => r,
        None => before,
    }
}

/// `ECHO x`: replies `x` (a master only).
pub open spec fn echo_outcome(args: Seq<RespValue>, a: AppView) -> Outcome {
    outcome(Some(reply_of(a, args[0], true)), a, NextOp::Read)
}

/// `PING`: replies `PONG` (a master only); a replica counts the bytes.
pub open spec fn ping_outcome(a: AppView, num_bytes: usize) -> Outcome {
    outcome(Some(reply_of(a, RespValue::SimpleStr("PONG"@), true)), with_ack(a, num_bytes), NextOp::Read)
}

/// `GET k`: replies the value of `k` where it is there and alive; otherwise
/// the reply is left as it was.
pub open spec fn get_outcome(args: Seq<RespValue>, a: AppView, now: i128) -> Outcome {
    let found = match arg_text(args, 0) {
        Some(k) => lookup(a.store, k, now),
        None => None,
    };
    outcome(
        match found {
            Some(v) => Some(reply_of(a, v, false)),
            None => None,
        },
        a,
        NextOp::Read,
    )
}

/// The time to live that options after a `SET`'s value give: `px` and a
/// number of milliseconds.
pub open spec fn px_ttl(opts: Seq<RespValue>) -> Option<u128> {
    if arg_text(opts, 0) == Some("px"@) {
        match arg_text(opts, 1) {
            Some(t) => match parse_unsigned(encode_utf8(t), u128::MAX as nat) {
                Some(v) => Some(v as u128),
                None => None,
            },
            None => None,
        }
    } else {
        None
    }
}

/// `SET k v [px ms]`: stores `v` under `k` and replies `OK` (a master only);
/// without a key and a value nothing is stored and the reply is left as it
/// was. Either way a replica counts the bytes and the command is passed on.
pub open spec fn set_outcome(args: Seq<RespValue>, a: AppView, num_bytes: usize, now: i128) -> Outcome {
    match arg_text(args, 0) {
        Some(k) => if args.len() >= 2 {
            outcome(
                Some(reply_of(a, RespValue::SimpleStr("OK"@), true)),
                with_ack(
                    AppView { store: stored(a.store, k, args[1], px_ttl(args.skip(2)), now), role: a.role },
                    num_bytes,
                ),
                NextOp::ReadAndShare,
            )
        } else {
            outcome(None, with_ack(a, num_bytes), NextOp::ReadAndShare)
        },
        None => outcome(None, with_ack(a, num_bytes), NextOp::ReadAndShare),
    }
}

/// `INFO`: replies the role text.
pub open spec fn info_outcome(a: AppView) -> Outcome {
    outcome(Some(reply_of(a, RespValue::BulkStr(info_of(a)), false)), a, NextOp::Read)
}

/// The acknowledgement `REPLCONF ACK n`, with the bytes processed so far.
pub open spec fn ack_reply(a: AppView) -> RespValue {
    RespValue::Arr(
        seq![
            RespValue::BulkStr("REPLCONF"@),
            RespValue::BulkStr("ACK"@),
            RespValue::BulkStr(ascii_chars(decimal(ack_of(a) as nat))),
        ],
    )
}

/// `REPLCONF GETACK` replies the acknowledgement (counted before this
/// command); any other `REPLCONF` replies `OK` (a master only). A replica
/// counts the bytes.
pub open spec fn replconf_outcome(args: Seq<RespValue>, a: AppView, num_bytes: usize) -> Outcome {
    let is_ack = match arg_text(args, 0) {
        Some(t) => t == "GETACK"@ || t == "getack"@,
        None => false,
    };
    outcome(
        Some(
            if is_ack {
                reply_of(a, ack_reply(a), false)
            } else {
                reply_of(a, RespValue::SimpleStr("OK"@), true)
            },
        ),
        with_ack(a, num_bytes),
        NextOp::Read,
    )
}

/// The header a full resynchronisation starts with.
pub open spec fn resync_header(a: AppView) -> RespValue {
    RespValue::SimpleStr("+FULLRESYNC "@ + replid_of(a) + " 0"@)
}

/// `PSYNC`: a full resynchronisation, after which the connection joins the
/// replication pool. Its reply is the snapshot (see `resync_response`).
pub open spec fn psync_outcome(a: AppView) -> Outcome {
    Outcome { reply: None, state: a, next_op: NextOp::MoveToPool, resync: Some(resync_header(a)) }
}

/// `WAIT`: replies the number of replicas (a master only).
pub open spec fn wait_outcome(a: AppView) -> Outcome {
    outcome(Some(reply_of(a, RespValue::Num(replicas_of(a) as i64), true)), a, NextOp::Read)
}

/// The outcome of a command list of `num_bytes` bytes, at time `now`. Command
/// words are matched exactly, in lower or upper case where both are listed;
/// a list that does not start with a bulk string, or an unknown word, does
/// nothing.
pub open spec fn command(list: Seq<RespValue>, a: AppView, num_bytes: usize, now: i128) -> Outcome {
    let args = list.drop_first();
    match command_word(list) {
        None => outcome(None, a, NextOp::Read),
        Some(w) => if w == "echo"@ || w == "ECHO"@ {
            echo_outcome(args, a)
        } else if w == "ping"@ || w == "PING"@ {
            ping_outcome(a, num_bytes)
        } else if w == "get"@ || w == "GET"@ {
            get_outcome(args, a, now)
        } else if w == "set"@ || w == "SET"@ {
            set_outcome(args, a, num_bytes, now)
        } else if w == "INFO"@ || w == "info"@ {
            info_outcome(a)
        } else if w == "REPLCONF"@ {
            replconf_outcome(args, a, num_bytes)
        } else if w == "PSYNC"@ {
            psync_outcome(a)
        } else if w == "WAIT"@ {
            wait_outcome(a)
        } else {
            outcome(None, a, NextOp::Read)
        },
    }
}

/// What the connection does after a command, and the header of a full
/// resynchronisation to send first, if any.
pub struct Handled {
    pub next_op: NextOp,
    pub resync: Option<Resp>,
}

/// Takes the first item of a queue.
fn next_item(list: &mut VecDeque<Resp>) -> (r: Option<Resp>)
    ensures
        old(list)@.len() > 0 ==> resp_values(final(list)@) == resp_values(old(list)@).drop_first(),
        old(list)@.len() > 0 ==> value_of(r) == Some(resp_values(old(list)@)[0]),
        old(list)@.len() == 0 ==> r is None && final(list)@ == old(list)@,
{
    let r = list.pop_front();
    proof {
        if old(list)@.len() > 0 {
            assert(resp_values(list@) =~= resp_values(old(list)@).drop_first());
        }
    }
    r
}

impl AppState {
    /// Whether the server is a master.
    pub fn is_master(&self) -> (r: bool)
        ensures
            r == is_master(self@),
    {
        match &self.server_info {
            Info::Master(_) => true,
            Info::Replica(_) => false,
        }
    }

    /// Sets the reply, where the server gives one.
    fn respond(&self, resp: Resp, master_only: bool, response: &mut Option<Resp>)
        ensures
            value_of(*final(response)) == reply_of(self@, resp@, master_only),
    {
        if !self.is_master() && master_only {
            *response = None;
        } else {
            *response = Some(resp);
        }
    }

    /// The bytes a replica has processed; 0 for a master.
    pub fn get_ack_bytes(&self) -> (r: u64)
        ensures
            r == ack_of(self@),
    {
        match &self.server_info {
            Info::Master(_) => 0,
            Info::Replica(repl) => repl.ack_bytes,
        }
    }

    /// A replica counts `u` more processed bytes (wrapping at 2^64); a
    /// master does nothing.
    pub fn update_ack_bytes(&mut self, u: usize)
        ensures
            final(self)@ == with_ack(old(self)@, u),
    {
        match &mut self.server_info {
            Info::Master(_) => {},
            Info::Replica(repl) => {
                repl.ack_bytes = repl.ack_bytes.wrapping_add(u as u64);
            },
        }
    }

    /// The number of replicas a master holds; 0 for a replica.
    pub fn get_replicas_connected(&self) -> (r: usize)
        ensures
            r == replicas_of(self@),
    {
        match &self.server_info {
            Info::Replica(_) => 0,
            Info::Master(m) => m.replicas,
        }
    }

    /// Counts one more replica connection in a master's pool, and says
    /// whether it did: a replica holds no pool.
    pub fn add_to_replication_pool(&mut self) -> (r: bool)
        requires
            replicas_of(old(self)@) < usize::MAX,
        ensures
            r == is_master(old(self)@),
            final(self)@ == pool_added(old(self)@),
    {
        match &mut self.server_info {
            Info::Master(m) => {
                m.replicas = m.replicas + 1;
                true
            },
            Info::Replica(_) => false,
        }
    }

    /// The text of the `INFO` reply.
    pub fn get_info(&self) -> (r: String)
        ensures
            r@ == info_of(self@),
    {
        match &self.server_info {
            Info::Master(m) => {
                let mut text = "role:master\nmaster_replid:".to_owned();
                text.append(m.master_replid.as_str());
                text.append("\nmaster_repl_offset:");
                let digits = decimal_bytes(m.master_repl_offset as u64);
                proof {
                    lemma_decimal_ascii(m.master_repl_offset as nat);
                }
                let offset = string_from_ascii(digits.as_slice());
                text.append(offset.as_str());
                text
            },
            Info::Replica(_) => "role:slave".to_owned(),
        }
    }

    /// The replication id of a master.
    pub fn get_repl_id(&self) -> (r: Option<&str>)
        ensures
            r is Some == is_master(self@),
            r matches Some(id) ==> id@ == replid_of(self@),
    {
        match &self.server_info {
            Info::Master(m) => Some(m.master_replid.as_str()),
            Info::Replica(_) => None,
        }
    }
}

/// A numeral's digits are ASCII.
proof fn lemma_decimal_ascii(n: nat)
    ensures
        crate::text::all_ascii(decimal(n)),
{
    crate::digits::lemma_decimal(n);
    assert forall|i: int| 0 <= i < decimal(n).len() implies #[trigger] decimal(n)[i] < 128 by {
        assert(crate::digits::is_digit(decimal(n)[i]));
    }
}

/// The text of a number in decimal.
fn decimal_string(n: u64) -> (r: String)
    ensures
        r@ == ascii_chars(decimal(n as nat)),
{
    let digits = decimal_bytes(n);
    proof {
        lemma_decimal_ascii(n as nat);
    }
    string_from_ascii(digits.as_slice())
}

/// The text of an item, taken out of it.
fn item_text(item: Option<Resp>) -> (r: Option<String>)
    ensures
        match value_of(item) {
            Some(v) => match v.text() {
                Some(t) => r matches Some(s) && s@ == t,
                None => r is None,
            },
            None => r is None,
        },
{
    match item {
        Some(x) => x.get_str(),
        None => None,
    }
}

/// Reads `GET k` at time `now`.
fn run_get(args: &mut VecDeque<Resp>, response: &mut Option<Resp>, state: &AppState, now: i128)
    ensures
        value_of(*final(response)) == replied(
            get_outcome(resp_values(old(args)@), state@, now),
            value_of(*old(response)),
        ),
{
    let key = item_text(next_item(args));
    match key {
        Some(k) => match state.store.get_at(k.as_str(), now) {
            Some(v) => state.respond(v, false, response),
            None => {},
        },
        None => {},
    }
}

/// Reads the options after a `SET`'s value: `px` and a number of
/// milliseconds.
fn take_px_ttl(opts: &mut VecDeque<Resp>) -> (r: Option<u128>)
    ensures
        r == px_ttl(resp_values(old(opts)@)),
{
    let ghost options = resp_values(opts@);
    let first = next_item(opts);
    assert(arg_text(options, 0) == match value_of(first) {
        Some(v) => v.text(),
        None => None,
    });
    assert(options.len() > 0 ==> resp_values(opts@) == options.drop_first());
    assert(options.len() > 1 ==> arg_text(options, 1) == arg_text(resp_values(opts@), 0));
    match item_text(first) {
        Some(option) => {
            if text_eq(option.as_str(), "px") {
                match item_text(next_item(opts)) {
                    Some(t) => parse_u128(t.as_str().as_bytes()),
                    None => None,
                }
            } else {
                None
            }
        },
        None => None,
    }
}

/// Runs `SET k v [px ms]` at time `now`.
fn run_set(args: &mut VecDeque<Resp>, response: &mut Option<Resp>, state: &mut AppState, num_bytes: usize, now: i128)
    ensures
        final(state)@ == set_outcome(resp_values(old(args)@), old(state)@, num_bytes, now).state,
        value_of(*final(response)) == replied(
            set_outcome(resp_values(old(args)@), old(state)@, num_bytes, now),
            value_of(*old(response)),
        ),
{
    let ghost vals = resp_values(args@);
    match item_text(next_item(args)) {
        Some(k) => {
            match next_item(args) {
                Some(v) => {
                    assert(resp_values(args@) =~= vals.skip(2));
                    let ttl = take_px_ttl(args);
                    let _ = state.store.set_at(k, v, ttl, now);
                    let ok = Resp::SimpleStr("OK".to_owned());
                    state.respond(ok, true, response);
                },
                None => {},
            }
        },
        None => {},
    }
    state.update_ack_bytes(num_bytes);
}

/// Runs `REPLCONF ...`.
fn run_replconf(args: &mut VecDeque<Resp>, response: &mut Option<Resp>, state: &mut AppState, num_bytes: usize)
    ensures
        final(state)@ == replconf_outcome(resp_values(old(args)@), old(state)@, num_bytes).state,
        value_of(*final(response)) == replied(
            replconf_outcome(resp_values(old(args)@), old(state)@, num_bytes),
            value_of(*old(response)),
        ),
{
    let is_ack = match item_text(next_item(args)) {
        Some(t) => text_eq(t.as_str(), "GETACK") || text_eq(t.as_str(), "getack"),
        None => false,
    };
    if is_ack {
        let mut r_list: VecDeque<Resp> = VecDeque::new();
        r_list.push_back(Resp::BulkStr("REPLCONF".to_owned()));
        r_list.push_back(Resp::BulkStr("ACK".to_owned()));
        r_list.push_back(Resp::BulkStr(decimal_string(state.get_ack_bytes())));
        proof {
            crate::resp::lemma_arr_value(r_list);
            assert(resp_values(r_list@) =~= ack_reply(state@)->Arr_0);
        }
        state.respond(Resp::Arr(r_list), false, response);
    } else {
        let ok = Resp::SimpleStr("OK".to_owned());
        state.respond(ok, true, response);
    }
    state.update_ack_bytes(num_bytes);
}

/// Handles a command list of `num_bytes` bytes at time `now`: sets the
/// reply where the command gives one, updates the state, and says what the
/// connection does next and whether a full resynchronisation must be sent.
pub fn handle_list_command_at(
    list: VecDeque<Resp>,
    response: &mut Option<Resp>,
    state: &mut AppState,
    num_bytes: usize,
    now: i128,
) -> (r: Handled)
    requires
        command_defined(resp_values(list@)),
    ensures
        final(state)@ == command(resp_values(list@), old(state)@, num_bytes, now).state,
        r.next_op == command(resp_values(list@), old(state)@, num_bytes, now).next_op,
        value_of(r.resync) == command(resp_values(list@), old(state)@, num_bytes, now).resync,
        value_of(*final(response)) == replied(
            command(resp_values(list@), old(state)@, num_bytes, now),
            value_of(*old(response)),
        ),
{
    let ghost vals = resp_values(list@);
    let mut list = list;
    let first = next_item(&mut list);
    let word = match first {
        Some(Resp::BulkStr(s)) => s,
        _ => {
            return Handled { next_op: NextOp::Read, resync: None };
        },
    };
    let w = word.as_str();
    if text_eq(w, "echo") || text_eq(w, "ECHO") {
        let x = next_item(&mut list).unwrap();
        state.respond(x, true, response);
        Handled { next_op: NextOp::Read, resync: None }
    } else if text_eq(w, "ping") || text_eq(w, "PING") {
        state.respond(Resp::SimpleStr("PONG".to_owned()), true, response);
        state.update_ack_bytes(num_bytes);
        Handled { next_op: NextOp::Read, resync: None }
    } else if text_eq(w, "get") || text_eq(w, "GET") {
        run_get(&mut list, response, state, now);
        Handled { next_op: NextOp::Read, resync: None }
    } else if text_eq(w, "set") || text_eq(w, "SET") {
        run_set(&mut list, response, state, num_bytes, now);
        Handled { next_op: NextOp::ReadAndShare, resync: None }
    } else if text_eq(w, "INFO") || text_eq(w, "info") {
        let info = state.get_info();
        state.respond(Resp::BulkStr(info), false, response);
        Handled { next_op: NextOp::Read, resync: None }
    } else if text_eq(w, "REPLCONF") {
        run_replconf(&mut list, response, state, num_bytes);
        Handled { next_op: NextOp::Read, resync: None }
    } else if text_eq(w, "PSYNC") {
        let mut header = "+FULLRESYNC ".to_owned();
        match state.get_repl_id() {
            Some(id) => header.append(id),
            None => {},
        }
        header.append(" 0");
        Handled { next_op: NextOp::MoveToPool, resync: Some(Resp::SimpleStr(header)) }
    } else if text_eq(w, "WAIT") {
        let n = state.get_replicas_connected();
        state.respond(Resp::Num(#[verifier::truncate] (n as i64)), true, response);
        Handled { next_op: NextOp::Read, resync: None }
    } else {
        Handled { next_op: NextOp::Read, resync: None }
    }
}

/// Handles a command list of `num_bytes` bytes now, by the system clock (as
/// `handle_list_command_at` does at the time read).
pub fn handle_list_command(
    list: VecDeque<Resp>,
    response: &mut Option<Resp>,
    state: &mut AppState,
    num_bytes: usize,
) -> (r: Handled)
    requires
        command_defined(resp_values(list@)),
    ensures
        exists|now: i128|
            {
                let o = #[trigger] command(resp_values(list@), old(state)@, num_bytes, now);
                &&& final(state)@ == o.state
                &&& r.next_op == o.next_op
                &&& value_of(r.resync) == o.resync
                &&& value_of(*final(response)) == replied(o, value_of(*old(response)))
            },
{
    let now = clock_nanos();
    handle_list_command_at(list, response, state, num_bytes, now)
}

/// Whether a command list is one the handler is defined on (an `ECHO` with
/// a string to echo, or any other list).
pub fn command_is_defined(list: &VecDeque<Resp>) -> (r: bool)
    ensures
        r == command_defined(resp_values(list@)),
{
    let ghost vals = resp_values(list@);
    if list.len() == 0 {
        return true;
    }
    assert(vals[0] == list@[0]@);
    match &list[0] {
        Resp::BulkStr(w) => {
            if text_eq(w.as_str(), "echo") || text_eq(w.as_str(), "ECHO") {
                if list.len() >= 2 {
                    assert(vals[1] == list@[1]@);
                    list[1].if_str()
                } else {
                    false
                }
            } else {
                true
            }
        },
        _ => true,
    }
}

/// What the server sends back for one value read from a connection.
pub struct Reply {
    pub response: Option<Resp>,
    pub next_op: NextOp,
    pub resync: Option<Resp>,
}

/// Handles one value of `num_bytes` bytes read from a connection, now by the
/// system clock: a command list is handled; any other value is answered
/// with `Nil`. An `ECHO` without a string to echo is refused (nothing).
pub fn handle_parsed(state: &mut AppState, parsed: &Resp, num_bytes: usize) -> (r: Option<Reply>)
    ensures
        match parsed@ {
            RespValue::Arr(list) => if command_defined(list) {
                &&& r is Some
                &&& exists|now: i128|
                    {
                        let o = #[trigger] command(list, old(state)@, num_bytes, now);
                        &&& final(state)@ == o.state
                        &&& r->Some_0.next_op == o.next_op
                        &&& value_of(r->Some_0.resync) == o.resync
                        &&& value_of(r->Some_0.response) == replied(o, Some(RespValue::Nil))
                    }
            } else {
                r is None && final(state)@ == old(state)@
            },
            _ => {
                &&& r is Some
                &&& value_of(r->Some_0.response) == Some(RespValue::Nil)
                &&& r->Some_0.next_op == NextOp::Read
                &&& r->Some_0.resync is None
                &&& final(state)@ == old(state)@
            },
        },
{
    let mut response = Some(Resp::Nil);
    match parsed.duplicate() {
        Resp::Arr(list) => {
            proof {
                crate::resp::lemma_arr_value(list);
            }
            if !command_is_defined(&list) {
                return None;
            }
            let handled = handle_list_command(list, &mut response, state, num_bytes);
            Some(Reply { response, next_op: handled.next_op, resync: handled.resync })
        },
        _ => Some(Reply { response, next_op: NextOp::Read, resync: None }),
    }
}

impl AppState {
    /// The reply to a `PSYNC` once its header is sent: the snapshot read
    /// from `rdb_file` (a master only); a file that is not hex text is an
    /// error.
    pub fn resync_response(&self, rdb_file: &[u8]) -> (r: Result<Option<Resp>, RdbError>)
        ensures
            match snapshot(rdb_file@) {
                Ok(b) => r is Ok && value_of(r->Ok_0) == reply_of(self@, RespValue::FileContent(b), true),
                Err(e) => r is Err && r->Err_0 == e,
            },
    {
        match rdb_payload(rdb_file) {
            Ok(bytes) => {
                let mut response = None;
                self.respond(Resp::FileContent(bytes), true, &mut response);
                Ok(response)
            },
            Err(e) => Err(e),
        }
    }
}

/// The replication id every master starts with.
pub open spec fn initial_replid() -> Seq<char> {
    "8371b4fb1155b71f4a04d3e1bc3e18c4a990aeeb"@
}

/// The role a server starts in: a master with no replicas where it is given
/// no master, and otherwise a replica of the master the text names.
pub open spec fn initial_role(master_info: Option<Seq<char>>) -> RoleView {
    match master_info {
        None => RoleView::Master { replid: initial_replid(), offset: 0, replicas: 0 },
        Some(t) => RoleView::Replica {
            host: replica_host(encode_utf8(t)),
            port: replica_port(encode_utf8(t)),
            ack_bytes: 0,
        },
    }
}

/// The text of an optional string.
pub open spec fn text_of(s: Option<String>) -> Option<Seq<char>> {
    match s {
        Some(t) => Some(t@),
        None => None,
    }
}

impl AppState {
    /// A server with an empty store, in the role `master_info` gives.
    pub fn new(master_info: Option<String>) -> (r: AppState)
        ensures
            r@.store == Map::<Seq<char>, (RespValue, crate::store::Expiry)>::empty(),
            r@.role == initial_role(text_of(master_info)),
    {
        let server_info = match master_info {
            None => Info::Master(
                MasterInfo {
                    master_replid: "8371b4fb1155b71f4a04d3e1bc3e18c4a990aeeb".to_owned(),
                    master_repl_offset: 0,
                    replicas: 0,
                },
            ),
            Some(master_inf) => {
                let (host, port) = parse_replicaof(master_inf.as_str());
                Info::Replica(ReplicaInfo { master_host: host, master_port: port, ack_bytes: 0 })
            },
        };
        AppState { store: InMem::new(), server_info }
    }

    /// The master's host and port, for a replica.
    pub fn master_address(&self) -> (r: Option<(&str, u32)>)
        ensures
            r is Some == !is_master(self@),
            r matches Some((h, p)) ==> self@.role == (RoleView::Replica {
                host: h@,
                port: p,
                ack_bytes: ack_of(self@),
            }),
    {
        match &self.server_info {
            Info::Master(_) => None,
            Info::Replica(r) => Some((r.master_host.as_str(), r.master_port)),
        }
    }
}

/// A server with an empty store, in the role `master_info` gives.
pub fn make_app_state(master_info: Option<String>) -> (r: AppState)
    ensures
        r@.store == Map::<Seq<char>, (RespValue, crate::store::Expiry)>::empty(),
        r@.role == initial_role(text_of(master_info)),
{
    AppState::new(master_info)
}

/// The command words, told apart by their length and first letter.
pub proof fn lemma_command_words()
    ensures
        "echo"@.len() == 4 && "echo"@[0] == 'e',
        "ECHO"@.len() == 4 && "ECHO"@[0] == 'E',
        "ping"@.len() == 4 && "ping"@[0] == 'p',
        "PING"@.len() == 4 && "PING"@[0] == 'P',
        "get"@.len() == 3 && "get"@[0] == 'g',
        "GET"@.len() == 3 && "GET"@[0] == 'G',
        "set"@.len() == 3 && "set"@[0] == 's',
        "SET"@.len() == 3 && "SET"@[0] == 'S',
        "INFO"@.len() == 4 && "INFO"@[0] == 'I',
        "info"@.len() == 4 && "info"@[0] == 'i',
        "REPLCONF"@.len() == 8 && "REPLCONF"@[0] == 'R',
        "PSYNC"@.len() == 5 && "PSYNC"@[0] == 'P',
        "WAIT"@.len() == 4 && "WAIT"@[0] == 'W',
{
    reveal_strlit("echo");
    reveal_strlit("ECHO");
    reveal_strlit("ping");
    reveal_strlit("PING");
    reveal_strlit("get");
    reveal_strlit("GET");
    reveal_strlit("set");
    reveal_strlit("SET");
    reveal_strlit("INFO");
    reveal_strlit("info");
    reveal_strlit("REPLCONF");
    reveal_strlit("PSYNC");
    reveal_strlit("WAIT");
}

/// A `SET` of a key to a value (without a time to live), then a `GET` of
/// the same key at any later time, replies the value written.
pub proof fn lemma_get_after_set(
    a: AppView,
    set_word: Seq<char>,
    key: RespValue,
    value: RespValue,
    get_word: Seq<char>,
    key_again: RespValue,
    set_bytes: usize,
    get_bytes: usize,
    set_time: i128,
    get_time: i128,
)
    requires
        set_word == "set"@ || set_word == "SET"@,
        get_word == "get"@ || get_word == "GET"@,
        key.text() is Some,
        key_again.text() == key.text(),
    ensures
        ({
            let written = command(
                seq![RespValue::BulkStr(set_word), key, value],
                a,
                set_bytes,
                set_time,
            ).state;
            command(seq![RespValue::BulkStr(get_word), key_again], written, get_bytes, get_time).reply
                == Some(Some(value))
        }),
{
    lemma_command_words();
    let set_list = seq![RespValue::BulkStr(set_word), key, value];
    let get_list = seq![RespValue::BulkStr(get_word), key_again];
    assert(command_word(set_list) == Some(set_word));
    assert(set_list.drop_first() =~= seq![key, value]);
    assert(set_list.drop_first().skip(2) =~= Seq::<RespValue>::empty());
    assert(command_word(get_list) == Some(get_word));
    assert(get_list.drop_first() =~= seq![key_again]);
    assert(arg_text(seq![key, value], 0) == key.text());
}

/// A `SET` of a key, with whatever options follow the value, writes that key
/// alone: every other key reads, at any time, as it did before.
pub proof fn lemma_set_keeps_other_keys(
    a: AppView,
    set_word: Seq<char>,
    key: RespValue,
    value: RespValue,
    opts: Seq<RespValue>,
    other: Seq<char>,
    num_bytes: usize,
    now: i128,
    later: i128,
)
    requires
        set_word == "set"@ || set_word == "SET"@,
        key.text() is Some,
        key.text() != Some(other),
    ensures
        lookup(
            command(seq![RespValue::BulkStr(set_word), key, value] + opts, a, num_bytes, now).state.store,
            other,
            later,
        ) == lookup(a.store, other, later),
{
    lemma_command_words();
    let list = seq![RespValue::BulkStr(set_word), key, value] + opts;
    assert(command_word(list) == Some(set_word));
    let args = list.drop_first();
    assert(args =~= seq![key, value] + opts);
    assert(args[0] == key && args[1] == value);
    assert(arg_text(args, 0) == key.text());
}

/// `SET k v px t`, then `GET k`, times in nanoseconds: the value is replied
/// from the write on while fewer than `t` milliseconds have passed, and once
/// `t` milliseconds or more have passed the `GET` gives no reply (the reply
/// stays as it was).
pub proof fn lemma_px_expiry(
    a: AppView,
    set_word: Seq<char>,
    key: RespValue,
    value: RespValue,
    t: u128,
    get_word: Seq<char>,
    key_again: RespValue,
    set_bytes: usize,
    get_bytes: usize,
    set_time: i128,
    get_time: i128,
)
    requires
        set_word == "set"@ || set_word == "SET"@,
        get_word == "get"@ || get_word == "GET"@,
        key.text() is Some,
        key_again.text() == key.text(),
    ensures
        ({
            let written = command(
                seq![
                    RespValue::BulkStr(set_word),
                    key,
                    value,
                    RespValue::BulkStr("px"@),
                    RespValue::BulkStr(ascii_chars(decimal(t as nat))),
                ],
                a,
                set_bytes,
                set_time,
            ).state;
            let reply = command(seq![RespValue::BulkStr(get_word), key_again], written, get_bytes, get_time).reply;
            &&& (set_time <= get_time < set_time + t * 1_000_000 ==> reply == Some(Some(value)))
            &&& (get_time >= set_time + t * 1_000_000 ==> reply == None::<Option<RespValue>>)
        }),
{
    lemma_command_words();
    let ms = ascii_chars(decimal(t as nat));
    let set_list = seq![
        RespValue::BulkStr(set_word),
        key,
        value,
        RespValue::BulkStr("px"@),
        RespValue::BulkStr(ms),
    ];
    let get_list = seq![RespValue::BulkStr(get_word), key_again];
    let args = set_list.drop_first();
    assert(command_word(set_list) == Some(set_word));
    assert(args =~= seq![key, value, RespValue::BulkStr("px"@), RespValue::BulkStr(ms)]);
    let opts = args.skip(2);
    assert(opts =~= seq![RespValue::BulkStr("px"@), RespValue::BulkStr(ms)]);
    assert(arg_text(args, 0) == key.text());
    assert(arg_text(opts, 0) == Some("px"@));
    assert(arg_text(opts, 1) == Some(ms));
    lemma_decimal_text_parses(t);
    assert(px_ttl(opts) == Some(t));
    assert(command_word(get_list) == Some(get_word));
    assert(get_list.drop_first() =~= seq![key_again]);
    let k = key.text()->Some_0;
    crate::store::lemma_ttl_in_milliseconds(a.store, k, value, t, set_time, get_time);
}

/// The text of a number in decimal reads back as that number.
proof fn lemma_decimal_text_parses(t: u128)
    ensures
        parse_unsigned(encode_utf8(ascii_chars(decimal(t as nat))), u128::MAX as nat) == Some(t as nat),
{
    lemma_decimal_ascii(t as nat);
    crate::text::lemma_ascii_utf8(decimal(t as nat));
    crate::digits::lemma_decimal(t as nat);
    let d = decimal(t as nat);
    assert(d[0] != 43u8) by {
        assert(crate::digits::is_digit(d[0]));
    }
}

/// A replica stays silent for the commands only a master answers: `ECHO`,
/// `PING`, `SET` (of a key and a value), `WAIT` and any `REPLCONF` but
/// `GETACK`.
pub proof fn lemma_replica_quiet(list: Seq<RespValue>, a: AppView, num_bytes: usize, now: i128)
    requires
        !is_master(a),
        command_defined(list),
        command_word(list) is Some,
        ({
            let w = command_word(list)->Some_0;
            ||| w == "echo"@ || w == "ECHO"@
            ||| w == "ping"@ || w == "PING"@
            ||| (w == "set"@ || w == "SET"@) && arg_text(list, 1) is Some && list.len() >= 3
            ||| w == "WAIT"@
            ||| w == "REPLCONF"@ && arg_text(list, 1) != Some("GETACK"@) && arg_text(list, 1) != Some(
                "getack"@,
            )
        }),
    ensures
        command(list, a, num_bytes, now).reply == Some(None::<RespValue>),
{
    lemma_command_words();
    assert(forall|i: int| 0 <= i < list.drop_first().len() ==> list.drop_first()[i] == list[i + 1]);
    assert(arg_text(list.drop_first(), 0) == arg_text(list, 1));
}

/// The command is one whose bytes a replica counts.
pub open spec fn counted(list: Seq<RespValue>) -> bool {
    match command_word(list) {
        Some(w) => w == "ping"@ || w == "PING"@ || w == "set"@ || w == "SET"@ || w == "REPLCONF"@,
        None => false,
    }
}

/// A replica counts the bytes of every `PING`, `SET` and `REPLCONF` it
/// processes (modulo 2^64), and no others; a master counts nothing.
pub proof fn lemma_ack_counts(list: Seq<RespValue>, a: AppView, num_bytes: usize, now: i128)
    requires
        command_defined(list),
    ensures
        ack_of(command(list, a, num_bytes, now).state) == if !is_master(a) && counted(list) {
            ack_of(a).wrapping_add(num_bytes as u64)
        } else {
            ack_of(a)
        },
{
    lemma_command_words();
}

/// Only `SET` changes the store.
pub proof fn lemma_only_set_writes(list: Seq<RespValue>, a: AppView, num_bytes: usize, now: i128)
    requires
        command_defined(list),
        !(command_word(list) matches Some(w) && (w == "set"@ || w == "SET"@)),
    ensures
        command(list, a, num_bytes, now).state.store == a.store,
{
}

/// A server as `make_app_state` builds it, after `n` replica connections
/// have joined its pool, reports `n` replicas where it is a master and 0
/// where it is a replica; its store and everything else stay as they were.
pub proof fn lemma_replicas_after_pool_adds(master_info: Option<Seq<char>>, n: nat)
    ensures
        ({
            let start = AppView {
                store: Map::<Seq<char>, (RespValue, crate::store::Expiry)>::empty(),
                role: initial_role(master_info),
            };
            let after = pool_added_times(start, n);
            &&& replicas_of(after) == if master_info is None { n } else { 0 }
            &&& is_master(after) == (master_info is None)
            &&& after.store == start.store
            &&& replid_of(after) == replid_of(start)
            &&& ack_of(after) == ack_of(start)
        }),
    decreases n,
{
    if n > 0 {
        lemma_replicas_after_pool_adds(master_info, (n - 1) as nat);
    }
}

/// The number of bytes a connection reads at a time.
pub const READ_BUF_LEN: usize = 512;

/// Whether a buffer holds nothing but zero bytes (an empty one included).
pub fn check_empty(buf: &Vec<u8>) -> (r: bool)
    ensures
        r == forall|i: int| 0 <= i < buf@.len() ==> buf@[i] == 0,
{
    if buf.len() == 0 {
        return true;
    }
    let mut i: usize = 0;
    while i < buf.len()
        invariant
            i <= buf@.len(),
            forall|j: int| 0 <= j < i ==> buf@[j] == 0,
        decreases buf@.len() - i,
    {
        if buf[i] != 0 {
            return false;
        }
        i = i + 1;
    }
    true
}

/// What is left to read after a value: the bytes that follow it, unless
/// the value took exactly the `read_count` bytes just read into a full
/// buffer (then nothing is kept). `None` keeps what was kept before.
pub fn next_remainder(read_count: usize, remainder: &[u8]) -> (r: Option<Vec<u8>>)
    requires
        remainder@.len() <= READ_BUF_LEN,
    ensures
        read_count != READ_BUF_LEN - remainder@.len() ==> r is Some && r->Some_0@ == remainder@,
        read_count == READ_BUF_LEN - remainder@.len() ==> r is None,
{
    if read_count != READ_BUF_LEN - remainder.len() {
        Some(vstd::slice::slice_to_vec(remainder))
    } else {
        None
    }
}

} // verus!
