use vstd::prelude::*;
use vstd::string::StringExecFns;
use vstd::utf8::{decode_utf8, valid_utf8};
use crate::bridge::{accepts_all, decode_text, decoded, exit_reported, process_output, ran,
    run_command, run_command_no_args, CommandOutcome};
use crate::config::{config_of, parse_config, ConfigMap};
use crate::error::JujuError;
use crate::relation::{id_text_of, number_error, decimal_value, digits_of, parse_relations,
    parse_usize, relations_read, Relation};
use crate::text::{chars_of, decimal_text, lines, push_decimal, split_chars, string_views, trim,
    trimmed, views, lemma_split_len};

verus! {

/// The transport protocol of a network port.
#[derive(Debug)]
pub enum Transport {
    Tcp,
    Udp,
}

impl Transport {
    /// The word that the agent's tools use for the protocol.
    pub open spec fn word(self) -> Seq<char> {
        match self {
            Transport::Tcp => "tcp"@,
            Transport::Udp => "udp"@,
        }
    }

    /// The word that the agent's tools use for the protocol.
    pub fn to_string(self) -> (s: String)
        ensures
            s@ == self.word(),
    {
        match self {
            Transport::Tcp => "tcp".to_owned(),
            Transport::Udp => "udp".to_owned(),
        }
    }
}

/// The states that a unit can report of itself.
#[derive(Debug)]
pub enum StatusType {
    Maintenance,
    Waiting,
    Active,
    Blocked,
}

impl StatusType {
    /// The word that the agent's tools use for the state.
    pub open spec fn word(self) -> Seq<char> {
        match self {
            StatusType::Maintenance => "maintenance"@,
            StatusType::Waiting => "waiting"@,
            StatusType::Active => "active"@,
            StatusType::Blocked => "blocked"@,
        }
    }

    /// The word that the agent's tools use for the state.
    pub fn to_string(self) -> (s: String)
        ensures
            s@ == self.word(),
    {
        match self {
            StatusType::Maintenance => "maintenance".to_owned(),
            StatusType::Waiting => "waiting".to_owned(),
            StatusType::Active => "active".to_owned(),
            StatusType::Blocked => "blocked".to_owned(),
        }
    }
}

/// A state to report, with a message for the operator.
#[derive(Debug)]
pub struct Status {
    /// The state.
    pub status_type: StatusType,
    /// A message to show alongside the state.
    pub message: String,
}

/// What the agent tells a relation hook about its surroundings.
#[derive(Debug)]
pub struct Context {
    /// The scope of the current relation hook.
    pub relation_type: String,
    /// The number of the relation of the current relation hook.
    pub relation_id: usize,
    /// The name of the local unit.
    pub unit: String,
    /// Relation data of the related units.
    pub relations: ConfigMap,
}

impl Context {
    /// The context made of what the agent put into the environment: the
    /// relation's scope, its identifier of the form `name:number`, and the
    /// local unit's name. An identifier whose number cannot be read is an
    /// error.
    pub fn new(relation_type: String, relation_id: &str, unit: String) -> (r: Result<
        Context,
        JujuError,
    >)
        ensures
            match r {
                Ok(c) => {
                    &&& number_error(id_text_of(relation_id@, ':')) is None
                    &&& c.relation_id == decimal_value(digits_of(id_text_of(relation_id@, ':')))
                    &&& c.relation_type == relation_type
                    &&& c.unit == unit
                    &&& c.relations.wf()
                    &&& c.relations@ == Map::<Seq<char>, Seq<char>>::empty()
                },
                Err(e) => e is ParseIntError && number_error(id_text_of(relation_id@, ':'))
                    == Some(e.message()),
            },
    {
        let chars = chars_of(relation_id);
        let parts = split_chars(&chars, ':');
        proof {
            lemma_split_len(relation_id@, ':');
        }
        let id = if parts.len() > 1 {
            proof {
                assert(views(parts@)[1] == parts@[1]@);
            }
            parse_usize(&parts[1])
        } else {
            let none: Vec<char> = Vec::new();
            proof {
                assert(none@ =~= Seq::<char>::empty());
            }
            parse_usize(&none)
        };
        match id {
            Ok(n) => Ok(
                Context {
                    relation_type: relation_type,
                    relation_id: n,
                    unit: unit,
                    relations: ConfigMap::new(),
                },
            ),
            Err(e) => Err(e),
        }
    }
}

/// The failure to decode `bytes`.
pub open spec fn decode_failed(bytes: Seq<u8>, e: JujuError) -> bool {
    !valid_utf8(bytes) && e is FromUtf8Error && e.message() == "invalid utf-8"@
}

/// `r` is the answer to a tool that only reports success or failure.
pub open spec fn status_reply(
    out: Result<CommandOutcome, JujuError>,
    r: Result<i32, JujuError>,
) -> bool {
    match out {
        Ok(o) => exit_reported(o, r),
        Err(e) => r == Err::<i32, JujuError>(e),
    }
}

/// `r` is the answer to a tool that prints a text: the text as printed.
pub open spec fn text_reply(
    out: Result<CommandOutcome, JujuError>,
    r: Result<String, JujuError>,
) -> bool {
    match out {
        Ok(o) => decoded(o.stdout@, r),
        Err(e) => r == Err::<String, JujuError>(e),
    }
}

/// `r` is the answer to a tool that prints one value: the text without the
/// white space around it.
pub open spec fn trimmed_reply(
    out: Result<CommandOutcome, JujuError>,
    r: Result<String, JujuError>,
) -> bool {
    match out {
        Ok(o) => match r {
            Ok(s) => valid_utf8(o.stdout@) && s@ == trimmed(decode_utf8(o.stdout@)),
            Err(e) => decode_failed(o.stdout@, e),
        },
        Err(e) => r == Err::<String, JujuError>(e),
    }
}

/// `r` is the answer to a configuration dump.
pub open spec fn config_reply(
    out: Result<CommandOutcome, JujuError>,
    r: Result<ConfigMap, JujuError>,
) -> bool {
    match out {
        Ok(o) => match r {
            Ok(m) => valid_utf8(o.stdout@) && m.wf() && m@ == config_of(
                lines(decode_utf8(o.stdout@)),
            ),
            Err(e) => decode_failed(o.stdout@, e),
        },
        Err(e) => r == Err::<ConfigMap, JujuError>(e),
    }
}

/// `r` is the answer to a tool that lists relations with the given
/// delimiter between name and number.
pub open spec fn relations_reply(
    out: Result<CommandOutcome, JujuError>,
    delimiter: char,
    r: Result<Vec<Relation>, JujuError>,
) -> bool {
    match out {
        Ok(o) => if valid_utf8(o.stdout@) {
            relations_read(decode_utf8(o.stdout@), delimiter, r)
        } else {
            r is Err && decode_failed(o.stdout@, r->Err_0)
        },
        Err(e) => r == Err::<Vec<Relation>, JujuError>(e),
    }
}

/// `r` is the answer to the leadership query: true exactly for the word
/// `True`, with or without white space around it.
pub open spec fn leader_reply(
    out: Result<CommandOutcome, JujuError>,
    r: Result<bool, JujuError>,
) -> bool {
    match out {
        Ok(o) => match r {
            Ok(b) => valid_utf8(o.stdout@) && b == (trimmed(decode_utf8(o.stdout@)) == "True"@),
            Err(e) => decode_failed(o.stdout@, e),
        },
        Err(e) => r == Err::<bool, JujuError>(e),
    }
}

/// Success or failure of a run.
pub fn status_of(out: Result<CommandOutcome, JujuError>) -> (r: Result<i32, JujuError>)
    ensures
        status_reply(out, r),
{
    match out {
        Ok(o) => process_output(o),
        Err(e) => Err(e),
    }
}

/// The text that a run printed.
pub fn text_of(out: Result<CommandOutcome, JujuError>) -> (r: Result<String, JujuError>)
    ensures
        text_reply(out, r),
{
    match out {
        Ok(o) => decode_text(o.stdout),
        Err(e) => Err(e),
    }
}

/// The value that a run printed, without the white space around it.
pub fn trimmed_text_of(out: Result<CommandOutcome, JujuError>) -> (r: Result<String, JujuError>)
    ensures
        trimmed_reply(out, r),
{
    match out {
        Ok(o) => match decode_text(o.stdout) {
            Ok(s) => Ok(trim(s.as_str())),
            Err(e) => Err(e),
        },
        Err(e) => Err(e),
    }
}

/// The configuration that a run printed.
pub fn config_from(out: Result<CommandOutcome, JujuError>) -> (r: Result<ConfigMap, JujuError>)
    ensures
        config_reply(out, r),
{
    match out {
        Ok(o) => match decode_text(o.stdout) {
            Ok(s) => Ok(parse_config(s.as_str())),
            Err(e) => Err(e),
        },
        Err(e) => Err(e),
    }
}

/// The answer that a run of the leadership query printed.
pub fn leader_from(out: Result<CommandOutcome, JujuError>) -> (r: Result<bool, JujuError>)
    ensures
        leader_reply(out, r),
{
    match out {
        Ok(o) => match decode_text(o.stdout) {
            Ok(s) => {
                let word = trim(s.as_str());
                Ok(word == "True".to_owned())
            },
            Err(e) => Err(e),
        },
        Err(e) => Err(e),
    }
}

fn one_arg(a: String) -> (v: Vec<String>)
    ensures
        string_views(v@) == seq![a@],
{
    let mut v: Vec<String> = Vec::new();
    v.push(a);
    proof {
        assert(string_views(v@) =~= seq![a@]);
    }
    v
}

fn two_args(a: String, b: String) -> (v: Vec<String>)
    ensures
        string_views(v@) == seq![a@, b@],
{
    let mut v: Vec<String> = Vec::new();
    v.push(a);
    v.push(b);
    proof {
        assert(string_views(v@) =~= seq![a@, b@]);
    }
    v
}

/// The argument that sets `key` to `value`.
fn assignment(key: &str, value: &str) -> (s: String)
    ensures
        s@ == key@ + "="@ + value@,
{
    let mut s = key.to_owned();
    s.append("=");
    s.append(value);
    s
}

/// The argument that names a port: its number, a slash, its protocol.
pub open spec fn port_text(port: nat, transport: Transport) -> Seq<char> {
    decimal_text(port) + "/"@ + transport.word()
}

fn port_arg(port: usize, transport: Transport) -> (s: String)
    ensures
        s@ == port_text(port as nat, transport),
{
    let mut s = String::new();
    push_decimal(&mut s, port);
    s.append("/");
    let word = transport.to_string();
    s.append(word.as_str());
    proof {
        assert(s@ =~= port_text(port as nat, transport));
    }
    s
}

/// The argument that names a related unit: its name, a slash, its number.
pub open spec fn unit_text(name: Seq<char>, id: nat) -> Seq<char> {
    name + "/"@ + decimal_text(id)
}

fn unit_arg(unit: &Relation) -> (s: String)
    ensures
        s@ == unit_text(unit.name@, unit.id as nat),
{
    let mut s = unit.name.clone();
    s.append("/");
    push_decimal(&mut s, unit.id);
    s
}

/// `msg` was written to the agent's log: the logging tool was run on it.
pub open spec fn logged<S: Fn(&str, &Vec<String>) -> Result<CommandOutcome, JujuError>>(
    spawn: S,
    msg: Seq<char>,
) -> bool {
    exists|out: Result<CommandOutcome, JujuError>| #[trigger]
        ran(spawn, "juju-log"@, Seq::empty().push(msg), false, out)
}

/// What a listing tool printed was noted in the agent's log, where it could
/// be decoded.
pub open spec fn output_noted<S: Fn(&str, &Vec<String>) -> Result<CommandOutcome, JujuError>>(
    spawn: S,
    command: Seq<char>,
    out: Result<CommandOutcome, JujuError>,
) -> bool {
    out is Ok && valid_utf8(out->Ok_0.stdout@) ==> logged(
        spawn,
        command + " output: "@ + decode_utf8(out->Ok_0.stdout@),
    )
}

/// Writes `msg` to the agent's log. A failure to do so is ignored.
pub fn log<S: Fn(&str, &Vec<String>) -> Result<CommandOutcome, JujuError>>(
    spawn: &S,
    msg: &String,
)
    requires
        accepts_all(*spawn),
    ensures
        logged(*spawn, msg@),
{
    let args = one_arg(msg.clone());
    proof {
        assert(seq![msg@] =~= Seq::empty().push(msg@));
    }
    let _ = run_command(spawn, "juju-log", &args, false);
}

/// Runs a listing tool, notes what it printed in the agent's log and reads
/// the relations from it.
fn list_relations<S: Fn(&str, &Vec<String>) -> Result<CommandOutcome, JujuError>>(
    spawn: &S,
    command: &str,
    delimiter: char,
) -> (r: Result<Vec<Relation>, JujuError>)
    requires
        accepts_all(*spawn),
    ensures
        exists|out: Result<CommandOutcome, JujuError>|
            ran(*spawn, command@, Seq::empty(), false, out)
                && #[trigger] relations_reply(out, delimiter, r)
                && output_noted(*spawn, command@, out),
{
    let out = run_command_no_args(spawn, command, false);
    let ghost seen = out;
    let r = match out {
        Ok(o) => match decode_text(o.stdout) {
            Ok(text) => {
                let mut note = command.to_owned();
                note.append(" output: ");
                note.append(text.as_str());
                log(spawn, &note);
                parse_relations(text.as_str(), delimiter)
            },
            Err(e) => Err(e),
        },
        Err(e) => Err(e),
    };
    proof {
        assert(relations_reply(seen, delimiter, r));
        assert(output_noted(*spawn, command@, seen));
    }
    r
}

/// Asks the agent to reboot the machine, with elevated privileges.
pub fn reboot<S: Fn(&str, &Vec<String>) -> Result<CommandOutcome, JujuError>>(spawn: &S) -> (r:
    Result<i32, JujuError>)
    requires
        accepts_all(*spawn),
    ensures
        exists|out: Result<CommandOutcome, JujuError>|
            ran(*spawn, "juju-reboot"@, Seq::empty(), true, out) && #[trigger] status_reply(out, r),
{
    status_of(run_command_no_args(spawn, "juju-reboot", true))
}

/// The value of the action parameter `key`.
pub fn action_get<S: Fn(&str, &Vec<String>) -> Result<CommandOutcome, JujuError>>(
    spawn: &S,
    key: &String,
) -> (r: Result<String, JujuError>)
    requires
        accepts_all(*spawn),
    ensures
        exists|out: Result<CommandOutcome, JujuError>|
            ran(*spawn, "action-get"@, seq![key@], false, out) && #[trigger] trimmed_reply(out, r),
{
    let args = one_arg(key.clone());
    trimmed_text_of(run_command(spawn, "action-get", &args, false))
}

/// Sets the action result `key` to `value`.
pub fn action_set<S: Fn(&str, &Vec<String>) -> Result<CommandOutcome, JujuError>>(
    spawn: &S,
    key: &String,
    value: &String,
) -> (r: Result<i32, JujuError>)
    requires
        accepts_all(*spawn),
    ensures
        exists|out: Result<CommandOutcome, JujuError>|
            ran(*spawn, "action-set"@, seq![key@ + "="@ + value@], false, out)
                && #[trigger] status_reply(out, r),
{
    let args = one_arg(assignment(key.as_str(), value.as_str()));
    status_of(run_command(spawn, "action-set", &args, false))
}

/// Marks the running action as failed, with a message.
pub fn action_fail<S: Fn(&str, &Vec<String>) -> Result<CommandOutcome, JujuError>>(
    spawn: &S,
    msg: &String,
) -> (r: Result<i32, JujuError>)
    requires
        accepts_all(*spawn),
    ensures
        exists|out: Result<CommandOutcome, JujuError>|
            ran(*spawn, "action-fail"@, seq![msg@], false, out) && #[trigger] status_reply(out, r),
{
    let args = one_arg(msg.clone());
    status_of(run_command(spawn, "action-fail", &args, false))
}

/// The private address of the unit.
pub fn unit_get_private_addr<S: Fn(&str, &Vec<String>) -> Result<CommandOutcome, JujuError>>(
    spawn: &S,
) -> (r: Result<String, JujuError>)
    requires
        accepts_all(*spawn),
    ensures
        exists|out: Result<CommandOutcome, JujuError>|
            ran(*spawn, "unit-get"@, seq!["private-address"@], false, out)
                && #[trigger] trimmed_reply(out, r),
{
    let args = one_arg("private-address".to_owned());
    trimmed_text_of(run_command(spawn, "unit-get", &args, false))
}

/// The public address of the unit.
pub fn unit_get_public_addr<S: Fn(&str, &Vec<String>) -> Result<CommandOutcome, JujuError>>(
    spawn: &S,
) -> (r: Result<String, JujuError>)
    requires
        accepts_all(*spawn),
    ensures
        exists|out: Result<CommandOutcome, JujuError>|
            ran(*spawn, "unit-get"@, seq!["public-address"@], false, out)
                && #[trigger] trimmed_reply(out, r),
{
    let args = one_arg("public-address".to_owned());
    trimmed_text_of(run_command(spawn, "unit-get", &args, false))
}

/// The configuration value under `key`.
pub fn config_get<S: Fn(&str, &Vec<String>) -> Result<CommandOutcome, JujuError>>(
    spawn: &S,
    key: &String,
) -> (r: Result<String, JujuError>)
    requires
        accepts_all(*spawn),
    ensures
        exists|out: Result<CommandOutcome, JujuError>|
            ran(*spawn, "config-get"@, seq![key@], false, out) && #[trigger] trimmed_reply(out, r),
{
    let args = one_arg(key.clone());
    trimmed_text_of(run_command(spawn, "config-get", &args, false))
}

/// The whole configuration of the unit.
pub fn config_get_all<S: Fn(&str, &Vec<String>) -> Result<CommandOutcome, JujuError>>(
    spawn: &S,
) -> (r: Result<ConfigMap, JujuError>)
    requires
        accepts_all(*spawn),
    ensures
        exists|out: Result<CommandOutcome, JujuError>|
            ran(*spawn, "config-get"@, seq!["--all"@], false, out)
                && #[trigger] config_reply(out, r),
{
    let args = one_arg("--all".to_owned());
    config_from(run_command(spawn, "config-get", &args, false))
}

/// Opens a port of the unit.
pub fn open_port<S: Fn(&str, &Vec<String>) -> Result<CommandOutcome, JujuError>>(
    spawn: &S,
    port: usize,
    transport: Transport,
) -> (r: Result<i32, JujuError>)
    requires
        accepts_all(*spawn),
    ensures
        exists|out: Result<CommandOutcome, JujuError>|
            ran(*spawn, "open-port"@, seq![port_text(port as nat, transport)], false, out)
                && #[trigger] status_reply(out, r),
{
    let args = one_arg(port_arg(port, transport));
    status_of(run_command(spawn, "open-port", &args, false))
}

/// Closes a port of the unit.
pub fn close_port<S: Fn(&str, &Vec<String>) -> Result<CommandOutcome, JujuError>>(
    spawn: &S,
    port: usize,
    transport: Transport,
) -> (r: Result<i32, JujuError>)
    requires
        accepts_all(*spawn),
    ensures
        exists|out: Result<CommandOutcome, JujuError>|
            ran(*spawn, "close-port"@, seq![port_text(port as nat, transport)], false, out)
                && #[trigger] status_reply(out, r),
{
    let args = one_arg(port_arg(port, transport));
    status_of(run_command(spawn, "close-port", &args, false))
}

/// Sets the relation setting `key` to `value`.
pub fn relation_set<S: Fn(&str, &Vec<String>) -> Result<CommandOutcome, JujuError>>(
    spawn: &S,
    key: &str,
    value: &str,
) -> (r: Result<i32, JujuError>)
    requires
        accepts_all(*spawn),
    ensures
        exists|out: Result<CommandOutcome, JujuError>|
            ran(*spawn, "relation-set"@, seq![key@ + "="@ + value@], false, out)
                && #[trigger] status_reply(out, r),
{
    let args = one_arg(assignment(key, value));
    status_of(run_command(spawn, "relation-set", &args, false))
}

/// The relation setting under `key`, as printed.
pub fn relation_get<S: Fn(&str, &Vec<String>) -> Result<CommandOutcome, JujuError>>(
    spawn: &S,
    key: &String,
) -> (r: Result<String, JujuError>)
    requires
        accepts_all(*spawn),
    ensures
        exists|out: Result<CommandOutcome, JujuError>|
            ran(*spawn, "relation-get"@, seq![key@], false, out) && #[trigger] text_reply(out, r),
{
    let args = one_arg(key.clone());
    text_of(run_command(spawn, "relation-get", &args, false))
}

/// The relation setting under `key` of the related unit `unit`, as printed.
pub fn relation_get_by_unit<S: Fn(&str, &Vec<String>) -> Result<CommandOutcome, JujuError>>(
    spawn: &S,
    key: &String,
    unit: &Relation,
) -> (r: Result<String, JujuError>)
    requires
        accepts_all(*spawn),
    ensures
        exists|out: Result<CommandOutcome, JujuError>|
            ran(
                *spawn,
                "relation-get"@,
                seq![key@, unit_text(unit.name@, unit.id as nat)],
                false,
                out,
            ) && #[trigger] text_reply(out, r),
{
    let args = two_args(key.clone(), unit_arg(unit));
    text_of(run_command(spawn, "relation-get", &args, false))
}

/// The related units, one `name/number` per line of the tool's output.
pub fn relation_list<S: Fn(&str, &Vec<String>) -> Result<CommandOutcome, JujuError>>(
    spawn: &S,
) -> (r: Result<Vec<Relation>, JujuError>)
    requires
        accepts_all(*spawn),
    ensures
        exists|out: Result<CommandOutcome, JujuError>|
            ran(*spawn, "relation-list"@, Seq::empty(), false, out)
                && #[trigger] relations_reply(out, '/', r)
                && output_noted(*spawn, "relation-list"@, out),
{
    list_relations(spawn, "relation-list", '/')
}

/// The relations, one `name:number` per line of the tool's output.
pub fn relation_ids<S: Fn(&str, &Vec<String>) -> Result<CommandOutcome, JujuError>>(
    spawn: &S,
) -> (r: Result<Vec<Relation>, JujuError>)
    requires
        accepts_all(*spawn),
    ensures
        exists|out: Result<CommandOutcome, JujuError>|
            ran(*spawn, "relation-ids"@, Seq::empty(), false, out)
                && #[trigger] relations_reply(out, ':', r)
                && output_noted(*spawn, "relation-ids"@, out),
{
    list_relations(spawn, "relation-ids", ':')
}

/// Reports the unit's state to the agent.
pub fn status_set<S: Fn(&str, &Vec<String>) -> Result<CommandOutcome, JujuError>>(
    spawn: &S,
    status: Status,
) -> (r: Result<i32, JujuError>)
    requires
        accepts_all(*spawn),
    ensures
        exists|out: Result<CommandOutcome, JujuError>|
            ran(
                *spawn,
                "status-set"@,
                seq![status.status_type.word(), status.message@],
                false,
                out,
            ) && #[trigger] status_reply(out, r),
{
    let args = two_args(status.status_type.to_string(), status.message);
    status_of(run_command(spawn, "status-set", &args, false))
}

/// Where the storage of the current storage hook is attached, as printed.
pub fn storage_get_location<S: Fn(&str, &Vec<String>) -> Result<CommandOutcome, JujuError>>(
    spawn: &S,
) -> (r: Result<String, JujuError>)
    requires
        accepts_all(*spawn),
    ensures
        exists|out: Result<CommandOutcome, JujuError>|
            ran(*spawn, "storage-get"@, seq!["location"@], false, out)
                && #[trigger] text_reply(out, r),
{
    let args = one_arg("location".to_owned());
    text_of(run_command(spawn, "storage-get", &args, false))
}

/// Where the storage instance `name` is attached, as printed.
pub fn storage_get<S: Fn(&str, &Vec<String>) -> Result<CommandOutcome, JujuError>>(
    spawn: &S,
    name: &str,
) -> (r: Result<String, JujuError>)
    requires
        accepts_all(*spawn),
    ensures
        exists|out: Result<CommandOutcome, JujuError>|
            ran(*spawn, "storage-get"@, seq!["-s"@, name@, "location"@], false, out)
                && #[trigger] text_reply(out, r),
{
    let mut args = two_args("-s".to_owned(), name.to_owned());
    let ghost before = string_views(args@);
    args.push("location".to_owned());
    proof {
        assert(string_views(args@) =~= before.push("location"@));
        assert(string_views(args@) =~= seq!["-s"@, name@, "location"@]);
    }
    text_of(run_command(spawn, "storage-get", &args, false))
}

/// The storage instances attached to the unit, as printed.
pub fn storage_list<S: Fn(&str, &Vec<String>) -> Result<CommandOutcome, JujuError>>(
    spawn: &S,
) -> (r: Result<String, JujuError>)
    requires
        accepts_all(*spawn),
    ensures
        exists|out: Result<CommandOutcome, JujuError>|
            ran(*spawn, "storage-list"@, Seq::empty(), false, out) && #[trigger] text_reply(out, r),
{
    text_of(run_command_no_args(spawn, "storage-list", false))
}

/// Whether this unit is the leader.
pub fn is_leader<S: Fn(&str, &Vec<String>) -> Result<CommandOutcome, JujuError>>(spawn: &S) -> (r:
    Result<bool, JujuError>)
    requires
        accepts_all(*spawn),
    ensures
        exists|out: Result<CommandOutcome, JujuError>|
            ran(*spawn, "is-leader"@, Seq::empty(), false, out) && #[trigger] leader_reply(out, r),
{
    leader_from(run_command_no_args(spawn, "is-leader", false))
}

} // verus!
