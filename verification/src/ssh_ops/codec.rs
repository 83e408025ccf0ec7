//! How operations and answers stand on a line.

use crate::json;
use crate::json::reader;
use crate::json::reader::{parts_of, tree_of};
use crate::json::{
    array, copies_of, copy_of, fields_stand_once, object, push_member, reads, record_from, written,
    Json,
};
use crate::ssh_ops;
use crate::ssh_ops::rows;
use crate::ssh_ops::rows::{session_rows_from, session_rows_json};
use crate::ssh_ops::{
    SshDirEntry, SshDirGitSummary, SshOp, SshOpOutcome, SshOpRequest, SshOpResponse, SshOpResult,
    SshSkillInfo, OP_KEY, OP_LINE_PREFIX,
};
use crate::text;
use crate::text::{cat3, decimal_of, decimal_of_usize, owned, str_eq};
use vstd::prelude::*;

verus! {

/// The largest number that a count can have.
pub open spec fn count_max() -> nat {
    usize::MAX as nat
}

/// A line around what it carries.
pub open spec fn envelope(payload: json::Tree) -> json::Tree {
    json::Tree::Object(seq![(OP_KEY@, payload)])
}

fn in_envelope(payload: Json) -> (r: Json)
    ensures
        r@ == envelope(payload@),
{
    let mut members: Vec<(String, Json)> = Vec::new();
    push_member(&mut members, OP_KEY, payload);
    assert(json::members_view(members@) =~= seq![(OP_KEY@, payload@)]);
    object(members)
}

/// A member that is a string.
pub open spec fn text_member(name: Seq<char>, s: Seq<char>) -> (Seq<char>, json::Tree) {
    (name, json::Tree::Text(s))
}

/// A member that is a number.
pub open spec fn number_member(name: Seq<char>, n: nat) -> (Seq<char>, json::Tree) {
    (name, json::Tree::Number(text::decimal(n)))
}

fn push_text(members: &mut Vec<(String, Json)>, name: &str, s: &str)
    ensures
        json::members_view(final(members)@) == json::members_view(old(members)@).push(
            text_member(name@, s@),
        ),
{
    push_member(members, name, Json::Text(owned(s)));
}

// ---------------------------------------------------------------------------
// Requests
// ---------------------------------------------------------------------------

/// The name of an operation.
pub open spec fn op_name(op: ssh_ops::OpView) -> Seq<char> {
    match op {
        ssh_ops::OpView::ListSessions => "list_sessions"@,
        ssh_ops::OpView::SessionPreview { .. } => "session_preview"@,
        ssh_ops::OpView::SetSessionSaved { .. } => "set_session_saved"@,
        ssh_ops::OpView::GetTodos { .. } => "get_todos"@,
        ssh_ops::OpView::ReadConfig => "read_config"@,
        ssh_ops::OpView::WriteConfig { .. } => "write_config"@,
        ssh_ops::OpView::ReadFile { .. } => "read_file"@,
        ssh_ops::OpView::WriteFile { .. } => "write_file"@,
        ssh_ops::OpView::ListPath { .. } => "list_path"@,
        ssh_ops::OpView::BrowseDir { .. } => "browse_dir"@,
        ssh_ops::OpView::ListSkills => "list_skills"@,
    }
}

/// The members that an operation has besides its name.
pub open spec fn op_params(op: ssh_ops::OpView) -> Seq<(Seq<char>, json::Tree)> {
    match op {
        ssh_ops::OpView::SessionPreview { session_id } => seq![
            text_member("session_id"@, session_id),
        ],
        ssh_ops::OpView::SetSessionSaved { session_id, saved, save_label } => {
            let base = seq![
                text_member("session_id"@, session_id),
                ("saved"@, json::Tree::Bool(saved)),
            ];
            match save_label {
                Some(label) => base.push(text_member("save_label"@, label)),
                None => base,
            }
        },
        ssh_ops::OpView::GetTodos { session_id } => seq![text_member("session_id"@, session_id)],
        ssh_ops::OpView::WriteConfig { content } => seq![text_member("content"@, content)],
        ssh_ops::OpView::ReadFile { path } => seq![text_member("path"@, path)],
        ssh_ops::OpView::WriteFile { path, content } => seq![
            text_member("path"@, path),
            text_member("content"@, content),
        ],
        ssh_ops::OpView::ListPath { prefix } => seq![text_member("prefix"@, prefix)],
        ssh_ops::OpView::BrowseDir { path } => seq![text_member("path"@, path)],
        _ => Seq::empty(),
    }
}

/// A request: its number, the name of its operation, and the rest.
pub open spec fn request_tree(id: u64, op: ssh_ops::OpView) -> json::Tree {
    json::Tree::Object(
        seq![number_member("id"@, id as nat), text_member("op"@, op_name(op))] + op_params(op),
    )
}

/// The line of a request, without its line feed.
pub open spec fn request_line(id: u64, op: ssh_ops::OpView) -> Seq<char> {
    json::text_of(envelope(request_tree(id, op)))
}

fn name_of(op: &SshOp) -> (r: &'static str)
    ensures
        r@ == op_name(op@),
{
    match op {
        SshOp::ListSessions => "list_sessions",
        SshOp::SessionPreview { .. } => "session_preview",
        SshOp::SetSessionSaved { .. } => "set_session_saved",
        SshOp::GetTodos { .. } => "get_todos",
        SshOp::ReadConfig => "read_config",
        SshOp::WriteConfig { .. } => "write_config",
        SshOp::ReadFile { .. } => "read_file",
        SshOp::WriteFile { .. } => "write_file",
        SshOp::ListPath { .. } => "list_path",
        SshOp::BrowseDir { .. } => "browse_dir",
        SshOp::ListSkills => "list_skills",
    }
}

fn push_params(members: &mut Vec<(String, Json)>, op: &SshOp)
    ensures
        json::members_view(final(members)@) == json::members_view(old(members)@) + op_params(op@),
{
    let ghost before = json::members_view(members@);
    match op {
        SshOp::SessionPreview { session_id } => push_text(members, "session_id", session_id.as_str()),
        SshOp::SetSessionSaved { session_id, saved, save_label } => {
            push_text(members, "session_id", session_id.as_str());
            push_member(members, "saved", Json::Bool(*saved));
            if let Some(label) = save_label {
                push_text(members, "save_label", label.as_str());
            }
        },
        SshOp::GetTodos { session_id } => push_text(members, "session_id", session_id.as_str()),
        SshOp::WriteConfig { content } => push_text(members, "content", content.as_str()),
        SshOp::ReadFile { path } => push_text(members, "path", path.as_str()),
        SshOp::WriteFile { path, content } => {
            push_text(members, "path", path.as_str());
            push_text(members, "content", content.as_str());
        },
        SshOp::ListPath { prefix } => push_text(members, "prefix", prefix.as_str()),
        SshOp::BrowseDir { path } => push_text(members, "path", path.as_str()),
        _ => {},
    }
    assert(json::members_view(members@) =~= before + op_params(op@));
}

/// The line of a request, without its line feed.
pub fn encode_request(request: &SshOpRequest) -> (r: String)
    ensures
        r@ == request_line(request.id, request.op@),
        !r@.contains('\n'),
{
    proof {
        law_requests_are_one_line(request.id, request.op@);
    }
    let mut members: Vec<(String, Json)> = Vec::new();
    push_member(&mut members, "id", Json::Number(decimal_of(request.id)));
    push_text(&mut members, "op", name_of(&request.op));
    assert(json::members_view(members@) =~= seq![
        number_member("id"@, request.id as nat),
        text_member("op"@, op_name(request.op@)),
    ]);
    push_params(&mut members, &request.op);
    written(&in_envelope(object(members)))
}

/// How deep what a line carries may be, its envelope being one deep.
pub const PAYLOAD_DEPTH: usize = 126;

/// The value of the only part of that name, from the `k`-th on.
pub open spec fn only_from(
    parts: Seq<(Seq<char>, Seq<char>)>,
    name: Seq<char>,
    k: int,
) -> Option<Seq<char>>
    decreases parts.len() - k,
{
    if k >= parts.len() {
        None
    } else if parts[k].0 == name {
        if forall|i: int| k < i < parts.len() ==> (#[trigger] parts[i]).0 != name {
            Some(parts[k].1)
        } else {
            None
        }
    } else {
        only_from(parts, name, k + 1)
    }
}

/// The text of what a line carries: the only member of its envelope that has
/// the name, or the only element of an array. What stands beside the member is
/// skipped, however deep it is.
pub open spec fn payload_text(line: Seq<char>) -> Option<Seq<char>> {
    match reader::parts_in(line, true) {
        Some(parts) => only_from(parts, OP_KEY@, 0),
        None => match reader::parts_in(line, false) {
            Some(parts) => if parts.len() == 1 {
                Some(parts[0].1)
            } else {
                None
            },
            None => None,
        },
    }
}

/// What a line carries.
pub open spec fn payload_in(line: Seq<char>) -> Option<json::Tree> {
    match payload_text(line) {
        Some(inner) => if json::is_document("["@ + inner + "]"@) {
            reader::tree_in(inner, PAYLOAD_DEPTH as nat)
        } else {
            None
        },
        None => None,
    }
}

/// Whether a line was written of what it carries, and is read back as that.
pub open spec fn carries(line: Seq<char>, payload: json::Tree) -> bool {
    line == json::text_of(envelope(payload)) && json::is_readable(payload, PAYLOAD_DEPTH as nat)
}

/// The value of the only part of that name.
fn only_part<'a>(parts: &'a Vec<(String, String)>, name: &str) -> (r: Option<&'a str>)
    ensures
        text::opt_str(r) == only_from(text::pairs(parts@), name@, 0),
{
    let ghost all = text::pairs(parts@);
    let mut k: usize = 0;
    while k < parts.len()
        invariant
            k <= parts@.len(),
            all == text::pairs(parts@),
            only_from(all, name@, 0) == only_from(all, name@, k as int),
        decreases parts@.len() - k,
    {
        assert(all[k as int] == (parts@[k as int].0@, parts@[k as int].1@));
        if str_eq(parts[k].0.as_str(), name) {
            let mut i: usize = k + 1;
            while i < parts.len()
                invariant
                    k < i <= parts@.len(),
                    all == text::pairs(parts@),
                    all[k as int].0 == name@,
                    only_from(all, name@, 0) == only_from(all, name@, k as int),
                    forall|j: int| k < j < i ==> (#[trigger] all[j]).0 != name@,
                decreases parts@.len() - i,
            {
                assert(all[i as int].0 == parts@[i as int].0@);
                if str_eq(parts[i].0.as_str(), name) {
                    return None;
                }
                i = i + 1;
            }
            return Some(parts[k].1.as_str());
        }
        k = k + 1;
    }
    None
}

/// The text of what a line carries.
fn payload_on(line: &str) -> (r: Option<String>)
    ensures
        text::opt_text(r) == payload_text(line@),
        forall|payload: json::Tree| #[trigger]
            carries(line@, payload) ==> text::opt_text(r) == Some(json::text_of(payload)),
{
    proof {
        assert forall|payload: json::Tree| #[trigger] carries(line@, payload) implies {
            let ps = seq![(OP_KEY@, payload)];
            &&& reader::is_written_parts(line@, ps, true, PAYLOAD_DEPTH as nat)
            &&& only_from(reader::written_parts(ps), OP_KEY@, 0) == Some(json::text_of(payload))
        } by {
            let ps = seq![(OP_KEY@, payload)];
            assert(json::is_readable(envelope(payload), (PAYLOAD_DEPTH + 1) as nat));
            reader::lemma_parts_are_written(envelope(payload), (PAYLOAD_DEPTH + 1) as nat);
            assert(reader::written_parts(ps)[0] == (OP_KEY@, json::text_of(payload)));
        }
    }
    match parts_of(line, true) {
        Some(parts) => match only_part(&parts, OP_KEY) {
            Some(inner) => Some(owned(inner)),
            None => None,
        },
        None => match parts_of(line, false) {
            Some(parts) => if parts.len() == 1 {
                Some(owned(parts[0].1.as_str()))
            } else {
                None
            },
            None => None,
        },
    }
}

/// What a line carries. One that was written carries what it was written of.
pub fn payload_of(line: &str) -> (r: Option<Json>)
    ensures
        json::opt_tree(r) == payload_in(line@),
        forall|payload: json::Tree| #[trigger]
            carries(line@, payload) ==> json::opt_tree(r) == Some(payload),
{
    let inner = match payload_on(line) {
        Some(inner) => inner,
        None => return None,
    };
    let whole = cat3("[", inner.as_str(), "]");
    proof {
        reveal_strlit("[");
        reveal_strlit("]");
        assert forall|payload: json::Tree| #[trigger] carries(line@, payload) implies whole@
            == json::text_of(json::Tree::Array(seq![payload])) && json::is_readable(
            json::Tree::Array(seq![payload]),
            json::READ_DEPTH as nat,
        ) && reader::is_written(inner@, payload, PAYLOAD_DEPTH as nat) by {
            reveal_with_fuel(json::items_text, 2);
            assert(json::items_text(seq![payload], 1) == json::text_of(payload));
            assert(whole@ =~= json::text_of(json::Tree::Array(seq![payload])));
        }
    }
    if reads(whole.as_str()) {
        tree_of(inner.as_str(), PAYLOAD_DEPTH)
    } else {
        None
    }
}

/// The names of the operations, in order.
pub open spec fn op_names() -> Seq<Seq<char>> {
    seq![
        "list_sessions"@,
        "session_preview"@,
        "set_session_saved"@,
        "get_todos"@,
        "read_config"@,
        "write_config"@,
        "read_file"@,
        "write_file"@,
        "list_path"@,
        "browse_dir"@,
        "list_skills"@,
    ]
}

/// The name of the operation in a request: by itself, or by its number.
pub open spec fn tag_in(t: json::Tree) -> Option<Seq<char>> {
    match json::named(t, "op"@) {
        Some(json::Tree::Text(name)) => Some(name),
        Some(json::Tree::Number(s)) => match text::parse_number(s, 10) {
            Some(n) => Some(op_names()[n as int]),
            None => None,
        },
        _ => None,
    }
}

/// The members that an operation reads besides its name.
pub open spec fn op_fields(name: Seq<char>) -> Seq<Seq<char>> {
    if name == "session_preview"@ || name == "get_todos"@ {
        seq!["session_id"@]
    } else if name == "set_session_saved"@ {
        seq!["session_id"@, "saved"@, "save_label"@]
    } else if name == "write_config"@ {
        seq!["content"@]
    } else if name == "read_file"@ || name == "browse_dir"@ {
        seq!["path"@]
    } else if name == "write_file"@ {
        seq!["path"@, "content"@]
    } else if name == "list_path"@ {
        seq!["prefix"@]
    } else {
        Seq::empty()
    }
}

/// The operation in a request.
pub open spec fn read_op(t: json::Tree) -> Option<ssh_ops::OpView> {
    match tag_in(t) {
        None => None,
        Some(name) => if !json::known_once(t->Object_0, op_fields(name)) {
            None
        } else if name == "list_sessions"@ {
            Some(ssh_ops::OpView::ListSessions)
        } else if name == "session_preview"@ {
            match json::text_in(t, "session_id"@) {
                Some(session_id) => Some(ssh_ops::OpView::SessionPreview { session_id }),
                None => None,
            }
        } else if name == "set_session_saved"@ {
            match (
                json::text_in(t, "session_id"@),
                json::flag_in(t, "saved"@),
                json::opt_text_in(t, "save_label"@),
            ) {
                (Some(session_id), Some(saved), Some(save_label)) => Some(
                    ssh_ops::OpView::SetSessionSaved { session_id, saved, save_label },
                ),
                _ => None,
            }
        } else if name == "get_todos"@ {
            match json::text_in(t, "session_id"@) {
                Some(session_id) => Some(ssh_ops::OpView::GetTodos { session_id }),
                None => None,
            }
        } else if name == "read_config"@ {
            Some(ssh_ops::OpView::ReadConfig)
        } else if name == "write_config"@ {
            match json::text_in(t, "content"@) {
                Some(content) => Some(ssh_ops::OpView::WriteConfig { content }),
                None => None,
            }
        } else if name == "read_file"@ {
            match json::text_in(t, "path"@) {
                Some(path) => Some(ssh_ops::OpView::ReadFile { path }),
                None => None,
            }
        } else if name == "write_file"@ {
            match (json::text_in(t, "path"@), json::text_in(t, "content"@)) {
                (Some(path), Some(content)) => Some(ssh_ops::OpView::WriteFile { path, content }),
                _ => None,
            }
        } else if name == "list_path"@ {
            match json::text_in(t, "prefix"@) {
                Some(prefix) => Some(ssh_ops::OpView::ListPath { prefix }),
                None => None,
            }
        } else if name == "browse_dir"@ {
            match json::text_in(t, "path"@) {
                Some(path) => Some(ssh_ops::OpView::BrowseDir { path }),
                None => None,
            }
        } else if name == "list_skills"@ {
            Some(ssh_ops::OpView::ListSkills)
        } else {
            None
        },
    }
}

/// The request that a line carries: members that it does not read do not
/// count, and none that it reads stands twice.
pub open spec fn read_request(payload: json::Tree) -> Option<(u64, ssh_ops::OpView)> {
    match payload {
        json::Tree::Object(members) => if json::known_once(members, seq!["id"@, "op"@]) {
            match (json::number_in(payload, "id"@, u64::MAX as nat), read_op(payload)) {
                (Some(id), Some(op)) => Some((id as u64, op)),
                _ => None,
            }
        } else {
            None
        },
        _ => None,
    }
}

/// The name of the operation in a request.
fn tag_of(t: &Json) -> (r: Option<String>)
    ensures
        text::opt_text(r) == tag_in(t@),
{
    match t.get("op") {
        Some(tag) => {
            proof {
                json::lemma_tree(*tag);
            }
            match tag {
                Json::Text(name) => Some(owned(name.as_str())),
                Json::Number(s) => match text::parse_u64(s.as_str(), 10) {
                    Some(n) => Some(owned(nth_name(n))),
                    None => None,
                },
                _ => None,
            }
        },
        None => None,
    }
}

/// The name of an operation by its number.
fn nth_name(n: u64) -> (r: &'static str)
    requires
        n <= 10,
    ensures
        r@ == op_names()[n as int],
{
    if n == 0 {
        "list_sessions"
    } else if n == 1 {
        "session_preview"
    } else if n == 2 {
        "set_session_saved"
    } else if n == 3 {
        "get_todos"
    } else if n == 4 {
        "read_config"
    } else if n == 5 {
        "write_config"
    } else if n == 6 {
        "read_file"
    } else if n == 7 {
        "write_file"
    } else if n == 8 {
        "list_path"
    } else if n == 9 {
        "browse_dir"
    } else {
        "list_skills"
    }
}

/// Whether no member that an operation reads stands twice.
fn op_fields_stand_once(t: &Json, name: &str) -> (r: bool)
    requires
        t@ is Object,
    ensures
        r == json::known_once(t@->Object_0, op_fields(name@)),
{
    proof {
        json::lemma_tree(*t);
    }
    let members = match t {
        Json::Object(members) => members,
        _ => return true,
    };
    let one = ["session_id"];
    let saved = ["session_id", "saved", "save_label"];
    let content = ["content"];
    let path = ["path"];
    let file = ["path", "content"];
    let prefix = ["prefix"];
    let nothing: [&str; 0] = [];
    proof {
        assert(json::strs(one@) =~= seq!["session_id"@]);
        assert(json::strs(saved@) =~= seq!["session_id"@, "saved"@, "save_label"@]);
        assert(json::strs(content@) =~= seq!["content"@]);
        assert(json::strs(path@) =~= seq!["path"@]);
        assert(json::strs(file@) =~= seq!["path"@, "content"@]);
        assert(json::strs(prefix@) =~= seq!["prefix"@]);
        assert(json::strs(nothing@) =~= Seq::<Seq<char>>::empty());
    }
    if str_eq(name, "session_preview") || str_eq(name, "get_todos") {
        fields_stand_once(members, one.as_slice())
    } else if str_eq(name, "set_session_saved") {
        fields_stand_once(members, saved.as_slice())
    } else if str_eq(name, "write_config") {
        fields_stand_once(members, content.as_slice())
    } else if str_eq(name, "read_file") || str_eq(name, "browse_dir") {
        fields_stand_once(members, path.as_slice())
    } else if str_eq(name, "write_file") {
        fields_stand_once(members, file.as_slice())
    } else if str_eq(name, "list_path") {
        fields_stand_once(members, prefix.as_slice())
    } else {
        fields_stand_once(members, nothing.as_slice())
    }
}

fn op_of(t: &Json) -> (r: Option<SshOp>)
    requires
        t@ is Object,
    ensures
        match r {
            Some(op) => read_op(t@) == Some(op@),
            None => read_op(t@) is None,
        },
{
    let name = match tag_of(t) {
        Some(name) => name,
        None => {
            return None;
        },
    };
    let name = name.as_str();
    if !op_fields_stand_once(t, name) {
        return None;
    }
    if str_eq(name, "list_sessions") {
        Some(SshOp::ListSessions)
    } else if str_eq(name, "session_preview") {
        match t.text_member("session_id") {
            Some(session_id) => Some(SshOp::SessionPreview { session_id }),
            None => None,
        }
    } else if str_eq(name, "set_session_saved") {
        match (
            t.text_member("session_id"),
            t.flag_member("saved"),
            t.opt_text_member("save_label"),
        ) {
            (Some(session_id), Some(saved), Some(save_label)) => Some(
                SshOp::SetSessionSaved { session_id, saved, save_label },
            ),
            _ => None,
        }
    } else if str_eq(name, "get_todos") {
        match t.text_member("session_id") {
            Some(session_id) => Some(SshOp::GetTodos { session_id }),
            None => None,
        }
    } else if str_eq(name, "read_config") {
        Some(SshOp::ReadConfig)
    } else if str_eq(name, "write_config") {
        match t.text_member("content") {
            Some(content) => Some(SshOp::WriteConfig { content }),
            None => None,
        }
    } else if str_eq(name, "read_file") {
        match t.text_member("path") {
            Some(path) => Some(SshOp::ReadFile { path }),
            None => None,
        }
    } else if str_eq(name, "write_file") {
        match (t.text_member("path"), t.text_member("content")) {
            (Some(path), Some(content)) => Some(SshOp::WriteFile { path, content }),
            _ => None,
        }
    } else if str_eq(name, "list_path") {
        match t.text_member("prefix") {
            Some(prefix) => Some(SshOp::ListPath { prefix }),
            None => None,
        }
    } else if str_eq(name, "browse_dir") {
        match t.text_member("path") {
            Some(path) => Some(SshOp::BrowseDir { path }),
            None => None,
        }
    } else if str_eq(name, "list_skills") {
        Some(SshOp::ListSkills)
    } else {
        None
    }
}

/// The request that a line carries.
pub fn request_from(payload: &Json) -> (r: Option<SshOpRequest>)
    ensures
        match r {
            Some(request) => read_request(payload@) == Some((request.id, request.op@)),
            None => read_request(payload@) is None,
        },
{
    proof {
        json::lemma_tree(*payload);
    }
    match payload {
        Json::Object(members) => {
            let names = ["id", "op"];
            assert(json::strs(names@) =~= seq!["id"@, "op"@]);
            if !fields_stand_once(members, names.as_slice()) {
                return None;
            }
            match (payload.number_member("id", u64::MAX), op_of(payload)) {
                (Some(id), Some(op)) => Some(SshOpRequest { id, op }),
                _ => None,
            }
        },
        _ => None,
    }
}

/// What is read of what a line carries, where it carries something.
pub open spec fn request_on(line: Seq<char>) -> Option<(u64, ssh_ops::OpView)> {
    match payload_in(line) {
        Some(payload) => read_request(payload),
        None => None,
    }
}

/// The request on a line. One that was written is read as it was.
pub fn decode_request(line: &str) -> (r: Option<SshOpRequest>)
    ensures
        match r {
            Some(request) => request_on(line@) == Some((request.id, request.op@)),
            None => request_on(line@) is None,
        },
        forall|id: u64, op: ssh_ops::OpView|
            line@ == #[trigger] request_line(id, op) ==> r is Some && r->0.id == id && r->0.op@
                == op,
{
    proof {
        assert forall|id: u64, op: ssh_ops::OpView|
            line@ == #[trigger] request_line(id, op) implies carries(line@, request_tree(id, op))
            && read_request(request_tree(id, op)) == Some((id, op)) by {
            lemma_request_is_readable(id, op);
            law_request_is_read_back(id, op);
        }
    }
    match payload_of(line) {
        Some(payload) => request_from(&payload),
        None => None,
    }
}

// ---------------------------------------------------------------------------
// Answers: writing
// ---------------------------------------------------------------------------

/// An object of one member.
pub open spec fn single(name: Seq<char>, value: json::Tree) -> json::Tree {
    json::Tree::Object(seq![(name, value)])
}

/// A list of strings.
pub open spec fn text_trees(v: Seq<Seq<char>>) -> Seq<json::Tree> {
    Seq::new(v.len(), |i: int| json::Tree::Text(v[i]))
}

/// An entry of a directory.
pub open spec fn entry_tree(e: ssh_ops::EntryView) -> json::Tree {
    json::Tree::Object(
        seq![
            text_member("name"@, e.name),
            ("is_dir"@, json::Tree::Bool(e.is_dir)),
            ("is_symlink"@, json::Tree::Bool(e.is_symlink)),
        ],
    )
}

/// The entries of a directory.
pub open spec fn entry_trees(v: Seq<ssh_ops::EntryView>) -> Seq<json::Tree> {
    Seq::new(v.len(), |i: int| entry_tree(v[i]))
}

/// A skill.
pub open spec fn skill_tree(s: ssh_ops::SkillView) -> json::Tree {
    json::Tree::Object(
        seq![
            text_member("name"@, s.name),
            text_member("description"@, s.description),
            text_member("path"@, s.path),
        ],
    )
}

/// A list of skills.
pub open spec fn skill_trees(v: Seq<ssh_ops::SkillView>) -> Seq<json::Tree> {
    Seq::new(v.len(), |i: int| skill_tree(v[i]))
}

/// How a repository stands; a branch is told where there is one.
pub open spec fn summary_tree(g: ssh_ops::SummaryView) -> json::Tree {
    let head = seq![("is_repo"@, json::Tree::Bool(g.is_repo))];
    let branch = match g.branch {
        Some(branch) => seq![text_member("branch"@, branch)],
        None => Seq::empty(),
    };
    json::Tree::Object(
        head + branch + seq![
            number_member("dirty"@, g.dirty as nat),
            number_member("ahead"@, g.ahead as nat),
            number_member("behind"@, g.behind as nat),
        ],
    )
}

/// A path and a text.
pub open spec fn file_tree(path: Seq<char>, content: Seq<char>) -> json::Tree {
    json::Tree::Object(seq![text_member("path"@, path), text_member("content"@, content)])
}

/// What an operation gave, under the name of the operation.
pub open spec fn result_tree(r: ssh_ops::ResultView) -> json::Tree {
    match r {
        ssh_ops::ResultView::ListSessions(v) => single(
            "list_sessions"@,
            json::Tree::Array(rows::row_trees(v)),
        ),
        ssh_ops::ResultView::SessionPreview { session_id, messages } => single(
            "session_preview"@,
            json::Tree::Object(
                seq![
                    text_member("session_id"@, session_id),
                    ("messages"@, json::Tree::Array(messages)),
                ],
            ),
        ),
        ssh_ops::ResultView::SetSessionSaved => json::Tree::Text("set_session_saved"@),
        ssh_ops::ResultView::GetTodos { todos, goals, plan } => {
            let base = seq![
                ("todos"@, json::Tree::Array(todos)),
                ("goals"@, json::Tree::Array(goals)),
            ];
            single(
                "get_todos"@,
                json::Tree::Object(
                    match plan {
                        Some(plan) => base.push(("plan"@, plan)),
                        None => base,
                    },
                ),
            )
        },
        ssh_ops::ResultView::ReadConfig { path, content } => single(
            "read_config"@,
            file_tree(path, content),
        ),
        ssh_ops::ResultView::WriteConfig => json::Tree::Text("write_config"@),
        ssh_ops::ResultView::ReadFile { path, content } => single(
            "read_file"@,
            file_tree(path, content),
        ),
        ssh_ops::ResultView::WriteFile => json::Tree::Text("write_file"@),
        ssh_ops::ResultView::ListPath(paths) => single(
            "list_path"@,
            json::Tree::Array(text_trees(paths)),
        ),
        ssh_ops::ResultView::BrowseDir { path, entries, git } => single(
            "browse_dir"@,
            json::Tree::Object(
                seq![
                    text_member("path"@, path),
                    ("entries"@, json::Tree::Array(entry_trees(entries))),
                    (
                        "git"@,
                        match git {
                            Some(git) => summary_tree(git),
                            None => json::Tree::Null,
                        },
                    ),
                ],
            ),
        ),
        ssh_ops::ResultView::ListSkills(skills) => single(
            "list_skills"@,
            json::Tree::Array(skill_trees(skills)),
        ),
    }
}

/// Whether what an operation gave can be written: every time in it has a text.
pub open spec fn is_writable(o: ssh_ops::OutcomeView) -> bool {
    match o {
        ssh_ops::OutcomeView::Result(ssh_ops::ResultView::ListSessions(v)) => rows::have_times(v),
        _ => true,
    }
}

/// How an operation went, as a member of its answer.
pub open spec fn outcome_member(o: ssh_ops::OutcomeView) -> (Seq<char>, json::Tree) {
    match o {
        ssh_ops::OutcomeView::Result(r) => ("result"@, result_tree(r)),
        ssh_ops::OutcomeView::Error(message) => text_member("error"@, message),
    }
}

/// An answer.
pub open spec fn response_tree(id: u64, o: ssh_ops::OutcomeView) -> json::Tree {
    json::Tree::Object(seq![number_member("id"@, id as nat), outcome_member(o)])
}

/// The line of an answer, without its line feed.
pub open spec fn response_line(id: u64, o: ssh_ops::OutcomeView) -> Seq<char> {
    json::text_of(envelope(response_tree(id, o)))
}

fn single_json(name: &str, value: Json) -> (r: Json)
    ensures
        r@ == single(name@, value@),
{
    let mut members: Vec<(String, Json)> = Vec::new();
    push_member(&mut members, name, value);
    assert(json::members_view(members@) =~= seq![(name@, value@)]);
    object(members)
}

fn texts_json(v: &Vec<String>) -> (r: Json)
    ensures
        r@ == json::Tree::Array(text_trees(text::texts(v@))),
{
    let mut items: Vec<Json> = Vec::new();
    let mut k: usize = 0;
    while k < v.len()
        invariant
            k <= v@.len(),
            json::trees(items@) == text_trees(text::texts(v@)).take(k as int),
        decreases v@.len() - k,
    {
        let ghost before = items@;
        let one = Json::Text(owned(v[k].as_str()));
        items.push(one);
        k = k + 1;
        proof {
            assert(json::trees(items@) =~= json::trees(before).push(one@));
            assert(json::trees(items@) =~= text_trees(text::texts(v@)).take(k as int));
        }
    }
    assert(json::trees(items@) =~= text_trees(text::texts(v@)));
    array(items)
}

fn entry_json(e: &SshDirEntry) -> (r: Json)
    ensures
        r@ == entry_tree(e@),
{
    let mut members: Vec<(String, Json)> = Vec::new();
    push_text(&mut members, "name", e.name.as_str());
    push_member(&mut members, "is_dir", Json::Bool(e.is_dir));
    push_member(&mut members, "is_symlink", Json::Bool(e.is_symlink));
    assert(json::members_view(members@) =~= entry_tree(e@)->Object_0);
    object(members)
}

fn entries_json(v: &Vec<SshDirEntry>) -> (r: Json)
    ensures
        r@ == json::Tree::Array(entry_trees(ssh_ops::entry_views(v@))),
{
    let mut items: Vec<Json> = Vec::new();
    let mut k: usize = 0;
    while k < v.len()
        invariant
            k <= v@.len(),
            json::trees(items@) == entry_trees(ssh_ops::entry_views(v@)).take(k as int),
        decreases v@.len() - k,
    {
        let ghost before = items@;
        let one = entry_json(&v[k]);
        items.push(one);
        k = k + 1;
        proof {
            assert(json::trees(items@) =~= json::trees(before).push(one@));
            assert(json::trees(items@) =~= entry_trees(ssh_ops::entry_views(v@)).take(k as int));
        }
    }
    assert(json::trees(items@) =~= entry_trees(ssh_ops::entry_views(v@)));
    array(items)
}

fn skill_json(s: &SshSkillInfo) -> (r: Json)
    ensures
        r@ == skill_tree(s@),
{
    let mut members: Vec<(String, Json)> = Vec::new();
    push_text(&mut members, "name", s.name.as_str());
    push_text(&mut members, "description", s.description.as_str());
    push_text(&mut members, "path", s.path.as_str());
    assert(json::members_view(members@) =~= skill_tree(s@)->Object_0);
    object(members)
}

fn skills_json(v: &Vec<SshSkillInfo>) -> (r: Json)
    ensures
        r@ == json::Tree::Array(skill_trees(ssh_ops::skill_views(v@))),
{
    let mut items: Vec<Json> = Vec::new();
    let mut k: usize = 0;
    while k < v.len()
        invariant
            k <= v@.len(),
            json::trees(items@) == skill_trees(ssh_ops::skill_views(v@)).take(k as int),
        decreases v@.len() - k,
    {
        let ghost before = items@;
        let one = skill_json(&v[k]);
        items.push(one);
        k = k + 1;
        proof {
            assert(json::trees(items@) =~= json::trees(before).push(one@));
            assert(json::trees(items@) =~= skill_trees(ssh_ops::skill_views(v@)).take(k as int));
        }
    }
    assert(json::trees(items@) =~= skill_trees(ssh_ops::skill_views(v@)));
    array(items)
}

fn summary_json(g: &SshDirGitSummary) -> (r: Json)
    ensures
        r@ == summary_tree(g@),
{
    let mut members: Vec<(String, Json)> = Vec::new();
    push_member(&mut members, "is_repo", Json::Bool(g.is_repo));
    if let Some(branch) = &g.branch {
        push_text(&mut members, "branch", branch.as_str());
    }
    push_member(&mut members, "dirty", Json::Number(decimal_of_usize(g.dirty)));
    push_member(&mut members, "ahead", Json::Number(decimal_of_usize(g.ahead)));
    push_member(&mut members, "behind", Json::Number(decimal_of_usize(g.behind)));
    assert(json::members_view(members@) =~= summary_tree(g@)->Object_0);
    object(members)
}

fn file_json(path: &str, content: &str) -> (r: Json)
    ensures
        r@ == file_tree(path@, content@),
{
    let mut members: Vec<(String, Json)> = Vec::new();
    push_text(&mut members, "path", path);
    push_text(&mut members, "content", content);
    assert(json::members_view(members@) =~= file_tree(path@, content@)->Object_0);
    object(members)
}

fn result_json(r: &SshOpResult) -> (t: Option<Json>)
    ensures
        match t {
            Some(t) => is_writable(ssh_ops::OutcomeView::Result(r@)) && t@ == result_tree(r@),
            None => !is_writable(ssh_ops::OutcomeView::Result(r@)),
        },
        has_plain_times(*r) ==> reads_back(ssh_ops::OutcomeView::Result(r@)),
{
    match r {
        SshOpResult::ListSessions(v) => match session_rows_json(v) {
            Some(t) => Some(single_json("list_sessions", t)),
            None => None,
        },
        _ => Some(plain_json(r)),
    }
}

/// What an operation gave, where it gave no list of sessions.
fn plain_json(r: &SshOpResult) -> (t: Json)
    requires
        !(r is ListSessions),
    ensures
        t@ == result_tree(r@),
{
    match r {
        SshOpResult::ListSessions(_) => Json::Null,
        SshOpResult::SessionPreview { session_id, messages } => {
            let mut members: Vec<(String, Json)> = Vec::new();
            push_text(&mut members, "session_id", session_id.as_str());
            push_member(&mut members, "messages", array(copies_of(messages)));
            assert(json::members_view(members@) =~= seq![
                text_member("session_id"@, session_id@),
                ("messages"@, json::Tree::Array(json::trees(messages@))),
            ]);
            single_json("session_preview", object(members))
        },
        SshOpResult::SetSessionSaved => Json::Text(owned("set_session_saved")),
        SshOpResult::GetTodos { todos, goals, plan } => {
            let mut members: Vec<(String, Json)> = Vec::new();
            push_member(&mut members, "todos", array(copies_of(todos)));
            push_member(&mut members, "goals", array(copies_of(goals)));
            let ghost base = seq![
                ("todos"@, json::Tree::Array(json::trees(todos@))),
                ("goals"@, json::Tree::Array(json::trees(goals@))),
            ];
            assert(json::members_view(members@) =~= base);
            if let Some(plan) = plan {
                push_member(&mut members, "plan", copy_of(plan));
            }
            single_json("get_todos", object(members))
        },
        SshOpResult::ReadConfig { path, content } => single_json(
            "read_config",
            file_json(path.as_str(), content.as_str()),
        ),
        SshOpResult::WriteConfig => Json::Text(owned("write_config")),
        SshOpResult::ReadFile { path, content } => single_json(
            "read_file",
            file_json(path.as_str(), content.as_str()),
        ),
        SshOpResult::WriteFile => Json::Text(owned("write_file")),
        SshOpResult::ListPath(paths) => single_json("list_path", texts_json(paths)),
        SshOpResult::BrowseDir { path, entries, git } => {
            let mut members: Vec<(String, Json)> = Vec::new();
            push_text(&mut members, "path", path.as_str());
            push_member(&mut members, "entries", entries_json(entries));
            let git_value = match git {
                Some(git) => summary_json(git),
                None => Json::Null,
            };
            assert(git_value@ == match ssh_ops::opt_summary(*git) {
                Some(git) => summary_tree(git),
                None => json::Tree::Null,
            });
            push_member(&mut members, "git", git_value);
            assert(json::members_view(members@) =~= seq![
                text_member("path"@, path@),
                ("entries"@, json::Tree::Array(entry_trees(ssh_ops::entry_views(entries@)))),
                ("git"@, git_value@),
            ]);
            assert(r@ == ssh_ops::ResultView::BrowseDir {
                path: path@,
                entries: ssh_ops::entry_views(entries@),
                git: ssh_ops::opt_summary(*git),
            });
            let t = single_json("browse_dir", object(members));
            assert(result_tree(r@) == single("browse_dir"@, result_tree(r@)->Object_0[0].1));
            assert(result_tree(r@)->Object_0[0].1->Object_0 =~= json::members_view(members@));
            assert(t@ == result_tree(r@));
            t
        },
        SshOpResult::ListSkills(skills) => single_json("list_skills", skills_json(skills)),
    }
}

/// Whether the times in an answer are in years of four digits.
pub open spec fn has_plain_times(r: SshOpResult) -> bool {
    r matches SshOpResult::ListSessions(v) ==> rows::have_plain_times(v@)
}

/// The line of an answer, without its line feed; nothing where a time in it
/// has no text. In years of four digits every time has one, and it reads as
/// the same time.
pub fn encode_response(response: &SshOpResponse) -> (r: Option<String>)
    ensures
        match r {
            Some(line) => is_writable(response.outcome@) && line@ == response_line(
                response.id,
                response.outcome@,
            ),
            None => !is_writable(response.outcome@),
        },
        (response.outcome matches SshOpOutcome::Result(result) ==> has_plain_times(result))
            ==> reads_back(response.outcome@),
{
    let mut members: Vec<(String, Json)> = Vec::new();
    push_member(&mut members, "id", Json::Number(decimal_of(response.id)));
    match &response.outcome {
        SshOpOutcome::Result(result) => match result_json(result) {
            Some(t) => push_member(&mut members, "result", t),
            None => return None,
        },
        SshOpOutcome::Error(message) => push_text(&mut members, "error", message.as_str()),
    }
    assert(json::members_view(members@) =~= seq![
        number_member("id"@, response.id as nat),
        outcome_member(response.outcome@),
    ]);
    Some(written(&in_envelope(object(members))))
}

// ---------------------------------------------------------------------------
// Answers: reading
// ---------------------------------------------------------------------------

/// The strings of a list, where every element is one.
pub open spec fn read_texts(items: Seq<json::Tree>) -> Option<Seq<Seq<char>>>
    decreases items.len(),
{
    if items.len() == 0 {
        Some(Seq::empty())
    } else {
        match (read_texts(items.drop_last()), items.last()) {
            (Some(before), json::Tree::Text(s)) => Some(before.push(s)),
            _ => None,
        }
    }
}

/// The fields of an entry of a directory.
pub open spec fn entry_names() -> Seq<Seq<char>> {
    seq!["name"@, "is_dir"@, "is_symlink"@]
}

/// An entry of a directory.
pub open spec fn read_entry(t: json::Tree) -> Option<ssh_ops::EntryView> {
    match json::record_of(t, entry_names(), 3) {
        Some(t) => match (
            json::text_in(t, "name"@),
            json::flag_in(t, "is_dir"@),
            json::flag_in(t, "is_symlink"@),
        ) {
            (Some(name), Some(is_dir), Some(is_symlink)) => Some(
                ssh_ops::EntryView { name, is_dir, is_symlink },
            ),
            _ => None,
        },
        None => None,
    }
}

/// The entries of a directory, where every element is one.
pub open spec fn read_entries(items: Seq<json::Tree>) -> Option<Seq<ssh_ops::EntryView>>
    decreases items.len(),
{
    if items.len() == 0 {
        Some(Seq::empty())
    } else {
        match (read_entries(items.drop_last()), read_entry(items.last())) {
            (Some(before), Some(e)) => Some(before.push(e)),
            _ => None,
        }
    }
}

/// The fields of a skill.
pub open spec fn skill_names() -> Seq<Seq<char>> {
    seq!["name"@, "description"@, "path"@]
}

/// A skill.
pub open spec fn read_skill(t: json::Tree) -> Option<ssh_ops::SkillView> {
    match json::record_of(t, skill_names(), 3) {
        Some(t) => match (
            json::text_in(t, "name"@),
            json::text_in(t, "description"@),
            json::text_in(t, "path"@),
        ) {
            (Some(name), Some(description), Some(path)) => Some(
                ssh_ops::SkillView { name, description, path },
            ),
            _ => None,
        },
        None => None,
    }
}

/// A list of skills, where every element is one.
pub open spec fn read_skills(items: Seq<json::Tree>) -> Option<Seq<ssh_ops::SkillView>>
    decreases items.len(),
{
    if items.len() == 0 {
        Some(Seq::empty())
    } else {
        match (read_skills(items.drop_last()), read_skill(items.last())) {
            (Some(before), Some(s)) => Some(before.push(s)),
            _ => None,
        }
    }
}

/// The fields of how a repository stands.
pub open spec fn summary_names() -> Seq<Seq<char>> {
    seq!["is_repo"@, "branch"@, "dirty"@, "ahead"@, "behind"@]
}

/// How a repository stands.
pub open spec fn read_summary(t: json::Tree) -> Option<ssh_ops::SummaryView> {
    match json::record_of(t, summary_names(), 5) {
        Some(t) => match (
            json::flag_in(t, "is_repo"@),
            json::opt_text_in(t, "branch"@),
            json::number_in(t, "dirty"@, count_max()),
            json::number_in(t, "ahead"@, count_max()),
            json::number_in(t, "behind"@, count_max()),
        ) {
            (Some(is_repo), Some(branch), Some(dirty), Some(ahead), Some(behind)) => Some(
                ssh_ops::SummaryView {
                    is_repo,
                    branch,
                    dirty: dirty as usize,
                    ahead: ahead as usize,
                    behind: behind as usize,
                },
            ),
            _ => None,
        },
        None => None,
    }
}

/// How a repository stands, where it is told: absent and null tell nothing.
pub open spec fn read_git(t: json::Tree) -> Option<Option<ssh_ops::SummaryView>> {
    match json::named(t, "git"@) {
        None => Some(None),
        Some(json::Tree::Null) => Some(None),
        Some(git) => match read_summary(git) {
            Some(summary) => Some(Some(summary)),
            None => None,
        },
    }
}

/// A path and a text.
pub open spec fn read_file(t: json::Tree) -> Option<(Seq<char>, Seq<char>)> {
    match json::record_of(t, seq!["path"@, "content"@], 2) {
        Some(t) => match (json::text_in(t, "path"@), json::text_in(t, "content"@)) {
            (Some(path), Some(content)) => Some((path, content)),
            _ => None,
        },
        None => None,
    }
}

/// The end of a conversation.
pub open spec fn read_preview(t: json::Tree) -> Option<ssh_ops::ResultView> {
    match json::record_of(t, seq!["session_id"@, "messages"@], 2) {
        Some(t) => match (json::text_in(t, "session_id"@), json::items_in(t, "messages"@)) {
            (Some(session_id), Some(messages)) => Some(
                ssh_ops::ResultView::SessionPreview { session_id, messages },
            ),
            _ => None,
        },
        None => None,
    }
}

/// A task list; there need be no plan.
pub open spec fn read_todos(t: json::Tree) -> Option<ssh_ops::ResultView> {
    match json::record_of(t, seq!["todos"@, "goals"@, "plan"@], 2) {
        Some(t) => match (json::items_in(t, "todos"@), json::items_in(t, "goals"@)) {
            (Some(todos), Some(goals)) => Some(
                ssh_ops::ResultView::GetTodos { todos, goals, plan: read_plan(t) },
            ),
            _ => None,
        },
        None => None,
    }
}

/// A directory.
pub open spec fn read_directory(t: json::Tree) -> Option<ssh_ops::ResultView> {
    match json::record_of(t, seq!["path"@, "entries"@, "git"@], 3) {
        Some(t) => match (json::text_in(t, "path"@), json::items_in(t, "entries"@), read_git(t)) {
            (Some(path), Some(items), Some(git)) => match read_entries(items) {
                Some(entries) => Some(ssh_ops::ResultView::BrowseDir { path, entries, git }),
                None => None,
            },
            _ => None,
        },
        None => None,
    }
}

/// A plan, where there is one.
pub open spec fn read_plan(t: json::Tree) -> Option<json::Tree> {
    match json::named(t, "plan"@) {
        Some(json::Tree::Null) => None,
        plan => plan,
    }
}

/// The result of an operation that gives nothing.
pub open spec fn bare_result(name: Seq<char>) -> Option<ssh_ops::ResultView> {
    if name == "set_session_saved"@ {
        Some(ssh_ops::ResultView::SetSessionSaved)
    } else if name == "write_config"@ {
        Some(ssh_ops::ResultView::WriteConfig)
    } else if name == "write_file"@ {
        Some(ssh_ops::ResultView::WriteFile)
    } else {
        None
    }
}

/// Whether a value stands for nothing.
pub open spec fn is_nothing(t: json::Tree) -> bool {
    t is Null || (t matches json::Tree::Object(members) && members.len() == 0)
}

/// The result of the operation of that name.
pub open spec fn full_result(name: Seq<char>, body: json::Tree) -> Option<ssh_ops::ResultView> {
    if name == "list_sessions"@ {
        match body {
            json::Tree::Array(items) => match rows::read_rows(items) {
                Some(v) => Some(ssh_ops::ResultView::ListSessions(v)),
                None => None,
            },
            _ => None,
        }
    } else if name == "session_preview"@ {
        read_preview(body)
    } else if name == "get_todos"@ {
        read_todos(body)
    } else if name == "read_config"@ {
        match read_file(body) {
            Some((path, content)) => Some(ssh_ops::ResultView::ReadConfig { path, content }),
            None => None,
        }
    } else if name == "read_file"@ {
        match read_file(body) {
            Some((path, content)) => Some(ssh_ops::ResultView::ReadFile { path, content }),
            None => None,
        }
    } else if name == "list_path"@ {
        match body {
            json::Tree::Array(items) => match read_texts(items) {
                Some(paths) => Some(ssh_ops::ResultView::ListPath(paths)),
                None => None,
            },
            _ => None,
        }
    } else if name == "browse_dir"@ {
        read_directory(body)
    } else if name == "list_skills"@ {
        match body {
            json::Tree::Array(items) => match read_skills(items) {
                Some(skills) => Some(ssh_ops::ResultView::ListSkills(skills)),
                None => None,
            },
            _ => None,
        }
    } else if is_nothing(body) {
        bare_result(name)
    } else {
        None
    }
}

/// What an operation gave.
pub open spec fn read_result(t: json::Tree) -> Option<ssh_ops::ResultView> {
    match t {
        json::Tree::Text(name) => bare_result(name),
        json::Tree::Object(members) => if members.len() == 1 {
            full_result(members[0].0, members[0].1)
        } else {
            None
        },
        _ => None,
    }
}

/// How an operation went: the first member that tells it counts.
pub open spec fn outcome_from(members: Seq<(Seq<char>, json::Tree)>, k: int) -> Option<
    ssh_ops::OutcomeView,
>
    decreases members.len() - k,
{
    if k >= members.len() {
        None
    } else if members[k].0 == "result"@ {
        match read_result(members[k].1) {
            Some(r) => Some(ssh_ops::OutcomeView::Result(r)),
            None => None,
        }
    } else if members[k].0 == "error"@ {
        match members[k].1 {
            json::Tree::Text(message) => Some(ssh_ops::OutcomeView::Error(message)),
            _ => None,
        }
    } else {
        outcome_from(members, k + 1)
    }
}

/// How an operation went.
pub open spec fn read_outcome(t: json::Tree) -> Option<ssh_ops::OutcomeView> {
    match t {
        json::Tree::Object(members) => outcome_from(members, 0),
        _ => None,
    }
}

/// The answer that a line carries.
pub open spec fn read_response(payload: json::Tree) -> Option<(u64, ssh_ops::OutcomeView)> {
    match payload {
        json::Tree::Object(members) => if json::known_once(members, seq!["id"@]) {
            match (json::number_in(payload, "id"@, u64::MAX as nat), read_outcome(payload)) {
                (Some(id), Some(outcome)) => Some((id as u64, outcome)),
                _ => None,
            }
        } else {
            None
        },
        _ => None,
    }
}

fn texts_from(items: &Vec<Json>) -> (r: Option<Vec<String>>)
    ensures
        match r {
            Some(v) => read_texts(json::trees(items@)) == Some(text::texts(v@)),
            None => read_texts(json::trees(items@)) is None,
        },
{
    let ghost all = json::trees(items@);
    let mut r: Vec<String> = Vec::new();
    let mut k: usize = 0;
    assert(all.take(0).len() == 0);
    assert(text::texts(r@) =~= Seq::<Seq<char>>::empty());
    while k < items.len()
        invariant
            k <= items@.len(),
            all == json::trees(items@),
            read_texts(all.take(k as int)) == Some(text::texts(r@)),
        decreases items@.len() - k,
    {
        proof {
            assert(all.take(k + 1).drop_last() =~= all.take(k as int));
            assert(all.take(k + 1).last() == items@[k as int]@);
        }
        match &items[k] {
            Json::Text(s) => {
                let one = owned(s.as_str());
                proof {
                    text::lemma_texts_push(r@, one);
                }
                r.push(one);
            },
            _ => {
                proof {
                    lemma_texts_fail(all, k + 1);
                }
                return None;
            },
        }
        k = k + 1;
    }
    assert(all.take(k as int) =~= all);
    Some(r)
}

proof fn lemma_texts_fail(items: Seq<json::Tree>, k: int)
    requires
        0 <= k <= items.len(),
        read_texts(items.take(k)) is None,
    ensures
        read_texts(items) is None,
    decreases items.len() - k,
{
    if k < items.len() {
        assert(items.take(k + 1).drop_last() =~= items.take(k));
        lemma_texts_fail(items, k + 1);
    } else {
        assert(items.take(k) =~= items);
    }
}

fn entry_from(t: &Json) -> (r: Option<SshDirEntry>)
    ensures
        match r {
            Some(e) => read_entry(t@) == Some(e@),
            None => read_entry(t@) is None,
        },
{
    let names = ["name", "is_dir", "is_symlink"];
    assert(json::strs(names@) =~= entry_names());
    match record_from(t, names.as_slice(), 3) {
        Some(t) => match (
            t.text_member("name"),
            t.flag_member("is_dir"),
            t.flag_member("is_symlink"),
        ) {
            (Some(name), Some(is_dir), Some(is_symlink)) => Some(
                SshDirEntry { name, is_dir, is_symlink },
            ),
            _ => None,
        },
        None => None,
    }
}

fn entries_from(items: &Vec<Json>) -> (r: Option<Vec<SshDirEntry>>)
    ensures
        match r {
            Some(v) => read_entries(json::trees(items@)) == Some(ssh_ops::entry_views(v@)),
            None => read_entries(json::trees(items@)) is None,
        },
{
    let ghost all = json::trees(items@);
    let mut r: Vec<SshDirEntry> = Vec::new();
    let mut k: usize = 0;
    assert(all.take(0).len() == 0);
    assert(ssh_ops::entry_views(r@) =~= Seq::<ssh_ops::EntryView>::empty());
    while k < items.len()
        invariant
            k <= items@.len(),
            all == json::trees(items@),
            read_entries(all.take(k as int)) == Some(ssh_ops::entry_views(r@)),
        decreases items@.len() - k,
    {
        proof {
            assert(all.take(k + 1).drop_last() =~= all.take(k as int));
            assert(all.take(k + 1).last() == items@[k as int]@);
        }
        match entry_from(&items[k]) {
            Some(e) => {
                let ghost before = r@;
                r.push(e);
                assert(ssh_ops::entry_views(r@) =~= ssh_ops::entry_views(before).push(e@));
            },
            None => {
                proof {
                    lemma_entries_fail(all, k + 1);
                }
                return None;
            },
        }
        k = k + 1;
    }
    assert(all.take(k as int) =~= all);
    Some(r)
}

proof fn lemma_entries_fail(items: Seq<json::Tree>, k: int)
    requires
        0 <= k <= items.len(),
        read_entries(items.take(k)) is None,
    ensures
        read_entries(items) is None,
    decreases items.len() - k,
{
    if k < items.len() {
        assert(items.take(k + 1).drop_last() =~= items.take(k));
        lemma_entries_fail(items, k + 1);
    } else {
        assert(items.take(k) =~= items);
    }
}

fn skill_from(t: &Json) -> (r: Option<SshSkillInfo>)
    ensures
        match r {
            Some(e) => read_skill(t@) == Some(e@),
            None => read_skill(t@) is None,
        },
{
    let names = ["name", "description", "path"];
    assert(json::strs(names@) =~= skill_names());
    match record_from(t, names.as_slice(), 3) {
        Some(t) => match (
            t.text_member("name"),
            t.text_member("description"),
            t.text_member("path"),
        ) {
            (Some(name), Some(description), Some(path)) => Some(
                SshSkillInfo { name, description, path },
            ),
            _ => None,
        },
        None => None,
    }
}

fn skills_from(items: &Vec<Json>) -> (r: Option<Vec<SshSkillInfo>>)
    ensures
        match r {
            Some(v) => read_skills(json::trees(items@)) == Some(ssh_ops::skill_views(v@)),
            None => read_skills(json::trees(items@)) is None,
        },
{
    let ghost all = json::trees(items@);
    let mut r: Vec<SshSkillInfo> = Vec::new();
    let mut k: usize = 0;
    assert(all.take(0).len() == 0);
    assert(ssh_ops::skill_views(r@) =~= Seq::<ssh_ops::SkillView>::empty());
    while k < items.len()
        invariant
            k <= items@.len(),
            all == json::trees(items@),
            read_skills(all.take(k as int)) == Some(ssh_ops::skill_views(r@)),
        decreases items@.len() - k,
    {
        proof {
            assert(all.take(k + 1).drop_last() =~= all.take(k as int));
            assert(all.take(k + 1).last() == items@[k as int]@);
        }
        match skill_from(&items[k]) {
            Some(s) => {
                let ghost before = r@;
                r.push(s);
                assert(ssh_ops::skill_views(r@) =~= ssh_ops::skill_views(before).push(s@));
            },
            None => {
                proof {
                    lemma_skills_fail(all, k + 1);
                }
                return None;
            },
        }
        k = k + 1;
    }
    assert(all.take(k as int) =~= all);
    Some(r)
}

proof fn lemma_skills_fail(items: Seq<json::Tree>, k: int)
    requires
        0 <= k <= items.len(),
        read_skills(items.take(k)) is None,
    ensures
        read_skills(items) is None,
    decreases items.len() - k,
{
    if k < items.len() {
        assert(items.take(k + 1).drop_last() =~= items.take(k));
        lemma_skills_fail(items, k + 1);
    } else {
        assert(items.take(k) =~= items);
    }
}

fn summary_from(t: &Json) -> (r: Option<SshDirGitSummary>)
    ensures
        match r {
            Some(g) => read_summary(t@) == Some(g@),
            None => read_summary(t@) is None,
        },
{
    let max: u64 = usize::MAX as u64;
    let names = ["is_repo", "branch", "dirty", "ahead", "behind"];
    assert(json::strs(names@) =~= summary_names());
    match record_from(t, names.as_slice(), 5) {
        Some(t) => match (
            t.flag_member("is_repo"),
            t.opt_text_member("branch"),
            t.number_member("dirty", max),
            t.number_member("ahead", max),
            t.number_member("behind", max),
        ) {
            (Some(is_repo), Some(branch), Some(dirty), Some(ahead), Some(behind)) => Some(
                SshDirGitSummary {
                    is_repo,
                    branch,
                    dirty: dirty as usize,
                    ahead: ahead as usize,
                    behind: behind as usize,
                },
            ),
            _ => None,
        },
        None => None,
    }
}

fn git_from(t: &Json) -> (r: Option<Option<SshDirGitSummary>>)
    ensures
        match r {
            Some(git) => read_git(t@) == Some(ssh_ops::opt_summary(git)),
            None => read_git(t@) is None,
        },
{
    match t.get("git") {
        None => Some(None),
        Some(git) => {
            proof {
                json::lemma_tree(*git);
            }
            match git {
                Json::Null => Some(None),
                _ => match summary_from(git) {
                    Some(summary) => Some(Some(summary)),
                    None => None,
                },
            }
        },
    }
}

fn plan_from(t: &Json) -> (r: Option<Json>)
    ensures
        json::opt_tree(r) == read_plan(t@),
{
    match t.get("plan") {
        None => None,
        Some(plan) => {
            proof {
                json::lemma_tree(*plan);
            }
            match plan {
                Json::Null => None,
                _ => Some(copy_of(plan)),
            }
        },
    }
}

fn file_from(t: &Json) -> (r: Option<(String, String)>)
    ensures
        match r {
            Some((path, content)) => read_file(t@) == Some((path@, content@)),
            None => read_file(t@) is None,
        },
{
    let names = ["path", "content"];
    assert(json::strs(names@) =~= seq!["path"@, "content"@]);
    match record_from(t, names.as_slice(), 2) {
        Some(t) => match (t.text_member("path"), t.text_member("content")) {
            (Some(path), Some(content)) => Some((path, content)),
            _ => None,
        },
        None => None,
    }
}

fn preview_from(t: &Json) -> (r: Option<SshOpResult>)
    ensures
        match r {
            Some(result) => read_preview(t@) == Some(result@),
            None => read_preview(t@) is None,
        },
{
    let names = ["session_id", "messages"];
    assert(json::strs(names@) =~= seq!["session_id"@, "messages"@]);
    match record_from(t, names.as_slice(), 2) {
        Some(t) => match (t.text_member("session_id"), t.array_member("messages")) {
            (Some(session_id), Some(messages)) => Some(
                SshOpResult::SessionPreview { session_id, messages: copies_of(messages) },
            ),
            _ => None,
        },
        None => None,
    }
}

fn todos_from(t: &Json) -> (r: Option<SshOpResult>)
    ensures
        match r {
            Some(result) => read_todos(t@) == Some(result@),
            None => read_todos(t@) is None,
        },
{
    let names = ["todos", "goals", "plan"];
    assert(json::strs(names@) =~= seq!["todos"@, "goals"@, "plan"@]);
    match record_from(t, names.as_slice(), 2) {
        Some(t) => match (t.array_member("todos"), t.array_member("goals")) {
            (Some(todos), Some(goals)) => Some(
                SshOpResult::GetTodos {
                    todos: copies_of(todos),
                    goals: copies_of(goals),
                    plan: plan_from(&t),
                },
            ),
            _ => None,
        },
        None => None,
    }
}

fn directory_from(t: &Json) -> (r: Option<SshOpResult>)
    ensures
        match r {
            Some(result) => read_directory(t@) == Some(result@),
            None => read_directory(t@) is None,
        },
{
    let names = ["path", "entries", "git"];
    assert(json::strs(names@) =~= seq!["path"@, "entries"@, "git"@]);
    match record_from(t, names.as_slice(), 3) {
        Some(t) => match (t.text_member("path"), t.array_member("entries"), git_from(&t)) {
            (Some(path), Some(items), Some(git)) => match entries_from(items) {
                Some(entries) => Some(SshOpResult::BrowseDir { path, entries, git }),
                None => None,
            },
            _ => None,
        },
        None => None,
    }
}

fn bare_from(name: &str) -> (r: Option<SshOpResult>)
    ensures
        match r {
            Some(result) => bare_result(name@) == Some(result@),
            None => bare_result(name@) is None,
        },
{
    if str_eq(name, "set_session_saved") {
        Some(SshOpResult::SetSessionSaved)
    } else if str_eq(name, "write_config") {
        Some(SshOpResult::WriteConfig)
    } else if str_eq(name, "write_file") {
        Some(SshOpResult::WriteFile)
    } else {
        None
    }
}

fn full_from(name: &str, body: &Json) -> (r: Option<SshOpResult>)
    ensures
        match r {
            Some(result) => full_result(name@, body@) == Some(result@),
            None => full_result(name@, body@) is None,
        },
{
    proof {
        json::lemma_tree(*body);
    }
    if str_eq(name, "list_sessions") {
        match body {
            Json::Array(items) => match session_rows_from(items) {
                Some(v) => Some(SshOpResult::ListSessions(v)),
                None => None,
            },
            _ => None,
        }
    } else if str_eq(name, "session_preview") {
        preview_from(body)
    } else if str_eq(name, "get_todos") {
        todos_from(body)
    } else if str_eq(name, "read_config") {
        match file_from(body) {
            Some((path, content)) => Some(SshOpResult::ReadConfig { path, content }),
            None => None,
        }
    } else if str_eq(name, "read_file") {
        match file_from(body) {
            Some((path, content)) => Some(SshOpResult::ReadFile { path, content }),
            None => None,
        }
    } else if str_eq(name, "list_path") {
        match body {
            Json::Array(items) => match texts_from(items) {
                Some(paths) => Some(SshOpResult::ListPath(paths)),
                None => None,
            },
            _ => None,
        }
    } else if str_eq(name, "browse_dir") {
        directory_from(body)
    } else if str_eq(name, "list_skills") {
        match body {
            Json::Array(items) => match skills_from(items) {
                Some(skills) => Some(SshOpResult::ListSkills(skills)),
                None => None,
            },
            _ => None,
        }
    } else {
        match body {
            Json::Null => bare_from(name),
            Json::Object(members) => if members.len() == 0 {
                bare_from(name)
            } else {
                None
            },
            _ => None,
        }
    }
}

fn result_from(t: &Json) -> (r: Option<SshOpResult>)
    ensures
        match r {
            Some(result) => read_result(t@) == Some(result@),
            None => read_result(t@) is None,
        },
{
    proof {
        json::lemma_tree(*t);
    }
    match t {
        Json::Text(name) => bare_from(name.as_str()),
        Json::Object(members) => if members.len() == 1 {
            full_from(members[0].0.as_str(), &members[0].1)
        } else {
            None
        },
        _ => None,
    }
}

fn outcome_of(t: &Json) -> (r: Option<SshOpOutcome>)
    ensures
        match r {
            Some(o) => read_outcome(t@) == Some(o@),
            None => read_outcome(t@) is None,
        },
{
    proof {
        json::lemma_tree(*t);
    }
    match t {
        Json::Object(members) => {
            let ghost all = json::members_view(members@);
            let mut k: usize = 0;
            while k < members.len()
                invariant
                    k <= members@.len(),
                    all == json::members_view(members@),
                    read_outcome(t@) == outcome_from(all, 0),
                    outcome_from(all, 0) == outcome_from(all, k as int),
                decreases members@.len() - k,
            {
                let value = &members[k].1;
                assert(all[k as int] == (members@[k as int].0@, value@));
                if str_eq(members[k].0.as_str(), "result") {
                    return match result_from(value) {
                        Some(result) => Some(SshOpOutcome::Result(result)),
                        None => None,
                    };
                }
                if str_eq(members[k].0.as_str(), "error") {
                    return match value {
                        Json::Text(message) => Some(SshOpOutcome::Error(owned(message.as_str()))),
                        _ => None,
                    };
                }
                k = k + 1;
            }
            None
        },
        _ => None,
    }
}

/// The answer that a line carries.
pub fn response_from(payload: &Json) -> (r: Option<SshOpResponse>)
    ensures
        match r {
            Some(response) => read_response(payload@) == Some((response.id, response.outcome@)),
            None => read_response(payload@) is None,
        },
{
    proof {
        json::lemma_tree(*payload);
    }
    match payload {
        Json::Object(members) => {
            let names = ["id"];
            assert(json::strs(names@) =~= seq!["id"@]);
            if !fields_stand_once(members, names.as_slice()) {
                return None;
            }
            match (payload.number_member("id", u64::MAX), outcome_of(payload)) {
                (Some(id), Some(outcome)) => Some(SshOpResponse { id, outcome }),
                _ => None,
            }
        },
        _ => None,
    }
}

/// What is read of what a line carries, where it carries something.
pub open spec fn response_on(line: Seq<char>) -> Option<(u64, ssh_ops::OutcomeView)> {
    match payload_in(line) {
        Some(payload) => read_response(payload),
        None => None,
    }
}

/// Whether the line of an answer is read as it was written: a plan that is
/// told is more than null, the texts of its times read as those times, and
/// what is handed on is read back.
pub open spec fn is_told_back(id: u64, outcome: ssh_ops::OutcomeView) -> bool {
    &&& outcome matches ssh_ops::OutcomeView::Result(r) ==> plan_stands(r)
    &&& reads_back(outcome)
    &&& hands_on_readable(outcome)
}

/// The answer on a line. One that was written is read as it was.
pub fn decode_response(line: &str) -> (r: Option<SshOpResponse>)
    ensures
        match r {
            Some(response) => response_on(line@) == Some((response.id, response.outcome@)),
            None => response_on(line@) is None,
        },
        forall|id: u64, outcome: ssh_ops::OutcomeView|
            line@ == #[trigger] response_line(id, outcome) && is_told_back(id, outcome)
                ==> r is Some && r->0.id == id && r->0.outcome@ == outcome,
{
    proof {
        assert forall|id: u64, outcome: ssh_ops::OutcomeView|
            line@ == #[trigger] response_line(id, outcome) && is_told_back(id, outcome) implies carries(
            line@,
            response_tree(id, outcome),
        ) && read_response(response_tree(id, outcome)) == Some((id, outcome)) by {
            lemma_response_is_readable(id, outcome);
            law_response_is_read_back(id, outcome);
        }
    }
    match payload_of(line) {
        Some(payload) => response_from(&payload),
        None => None,
    }
}

// ---------------------------------------------------------------------------
// Laws
// ---------------------------------------------------------------------------

proof fn lemma_plain(s: Seq<char>)
    requires
        forall|i: int|
            0 <= i < s.len() ==> (#[trigger] s[i]) as u32 >= 32 && s[i] != '"' && s[i] != '\\',
    ensures
        json::escaped(s) == s,
    decreases s.len(),
{
    if s.len() > 0 {
        lemma_plain(s.drop_last());
        assert(s.drop_last() + seq![s.last()] =~= s);
    }
}

/// Every line that is written here is told from the daemon's lines.
pub proof fn law_written_lines_are_ops(payload: json::Tree)
    ensures
        text::starts_with(json::text_of(envelope(payload)), OP_LINE_PREFIX@),
        ssh_ops::is_op(vstd::utf8::encode_utf8(json::text_of(envelope(payload)))),
{
    reveal_strlit("__jcode_ssh_op");
    reveal_strlit("{\"__jcode_ssh_op\":");
    lemma_plain(OP_KEY@);
    let members = seq![(OP_KEY@, payload)];
    let line = json::text_of(envelope(payload));
    reveal_with_fuel(json::members_text, 2);
    assert(json::members_text(members, 1) == json::quoted(OP_KEY@) + seq![':'] + json::text_of(
        payload,
    ));
    assert(line == seq!['{'] + json::members_text(members, 1) + seq!['}']);
    assert(OP_LINE_PREFIX@ =~= seq!['{'] + json::quoted(OP_KEY@) + seq![':']);
    assert(line.take(OP_LINE_PREFIX@.len() as int) =~= OP_LINE_PREFIX@);
    ssh_ops::lemma_prefix_marks_op(line);
}

proof fn lemma_names()
    ensures
        "id"@ != "op"@,
        "id"@.len() == 2,
        "op"@.len() == 2,
        "session_id"@.len() == 10,
        "save_label"@.len() == 10,
        "session_id"@ != "save_label"@,
        "saved"@.len() == 5,
        "content"@.len() == 7,
        "path"@.len() == 4,
        "prefix"@.len() == 6,
{
    reveal_strlit("id");
    reveal_strlit("op");
    reveal_strlit("session_id");
    reveal_strlit("save_label");
    reveal_strlit("saved");
    reveal_strlit("content");
    reveal_strlit("path");
    reveal_strlit("prefix");
    assert("id"@[0] != "op"@[0]);
    assert("session_id"@[1] != "save_label"@[1]);
}

proof fn lemma_op_names()
    ensures
        "list_sessions"@.len() == 13,
        "session_preview"@.len() == 15,
        "set_session_saved"@.len() == 17,
        "get_todos"@.len() == 9,
        "read_config"@.len() == 11,
        "write_config"@.len() == 12,
        "read_file"@.len() == 9,
        "write_file"@.len() == 10,
        "list_path"@.len() == 9,
        "browse_dir"@.len() == 10,
        "list_skills"@.len() == 11,
        "get_todos"@ != "read_file"@,
        "get_todos"@ != "list_path"@,
        "read_file"@ != "list_path"@,
        "write_file"@ != "browse_dir"@,
        "read_config"@ != "list_skills"@,
{
    reveal_strlit("list_sessions");
    reveal_strlit("session_preview");
    reveal_strlit("set_session_saved");
    reveal_strlit("get_todos");
    reveal_strlit("read_config");
    reveal_strlit("write_config");
    reveal_strlit("read_file");
    reveal_strlit("write_file");
    reveal_strlit("list_path");
    reveal_strlit("browse_dir");
    reveal_strlit("list_skills");
    assert("get_todos"@[0] != "read_file"@[0]);
    assert("get_todos"@[0] != "list_path"@[0]);
    assert("read_file"@[0] != "list_path"@[0]);
    assert("write_file"@[0] != "browse_dir"@[0]);
    assert("read_config"@[0] != "list_skills"@[0]);
}

/// A request is read as it was written.
pub proof fn law_request_is_read_back(id: u64, op: ssh_ops::OpView)
    ensures
        read_request(request_tree(id, op)) == Some((id, op)),
{
    lemma_names();
    lemma_op_names();
    text::law_decimal_is_read_back(id as nat, u64::MAX as nat);
    reveal_with_fuel(json::named_from, 6);
    let payload = request_tree(id, op);
    let members = payload->Object_0;
    assert(members[0] == number_member("id"@, id as nat));
    assert(members[1] == text_member("op"@, op_name(op)));
    assert(json::text_in(payload, "op"@) == Some(op_name(op)));
    let params = op_params(op);
    assert(params.len() > 0 ==> members[2] == params[0]);
    assert(params.len() > 1 ==> members[3] == params[1]);
    assert(params.len() > 2 ==> members[4] == params[2]);
    assert(members.len() == 2 + params.len());
    json::lemma_record(members, seq!["id"@, "op"@], 0);
    json::lemma_record(members, op_fields(op_name(op)), 0);
    assert(read_op(payload) == Some(op));
}

/// The text of a request is read as what it was written of.
proof fn lemma_request_is_readable(id: u64, op: ssh_ops::OpView)
    ensures
        json::is_readable(request_tree(id, op), PAYLOAD_DEPTH as nat),
{
    lemma_names();
    reveal_with_fuel(json::is_readable, 3);
    let payload = request_tree(id, op);
    let members = payload->Object_0;
    let params = op_params(op);
    assert(members.len() == 2 + params.len());
    assert(members[0] == number_member("id"@, id as nat));
    assert(members[1] == text_member("op"@, op_name(op)));
    assert(params.len() > 0 ==> members[2] == params[0]);
    assert(params.len() > 1 ==> members[3] == params[1]);
    assert(params.len() > 2 ==> members[4] == params[2]);
    let inner = (PAYLOAD_DEPTH - 1) as nat;
    assert forall|i: int| 0 <= i < members.len() implies json::is_readable(
        (#[trigger] members[i]).1,
        inner,
    ) by {
        if i == 0 {
            assert(members[0].1 == json::Tree::Number(text::decimal(id as nat)));
        }
    }
}

/// A request stands on one line, which is told from the daemon's lines.
pub proof fn law_requests_are_one_line(id: u64, op: ssh_ops::OpView)
    ensures
        !request_line(id, op).contains('\n'),
        ssh_ops::is_op(vstd::utf8::encode_utf8(request_line(id, op))),
{
    law_written_lines_are_ops(request_tree(id, op));
    let payload = request_tree(id, op);
    let members = payload->Object_0;
    let params = op_params(op);
    assert(members.len() == 2 + params.len());
    assert(members[0] == number_member("id"@, id as nat));
    assert(params.len() > 0 ==> members[2] == params[0]);
    assert(params.len() > 1 ==> members[3] == params[1]);
    assert(params.len() > 2 ==> members[4] == params[2]);
    lemma_decimal_is_one_line(id as nat);
    json::lemma_plain_members(members, members.len());
    json::lemma_plain_members(seq![(OP_KEY@, payload)], 1);
    json::law_documents_are_one_line(envelope(payload));
}

/// An answer stands on one line, which is told from the daemon's lines, where
/// no number that is handed on holds a line feed.
pub proof fn law_responses_are_one_line(id: u64, outcome: ssh_ops::OutcomeView)
    requires
        json::has_plain_numbers(response_tree(id, outcome)),
    ensures
        !response_line(id, outcome).contains('\n'),
        ssh_ops::is_op(vstd::utf8::encode_utf8(response_line(id, outcome))),
{
    let payload = response_tree(id, outcome);
    law_written_lines_are_ops(payload);
    json::lemma_plain_members(seq![(OP_KEY@, payload)], 1);
    json::law_documents_are_one_line(envelope(payload));
}

proof fn lemma_decimal_is_one_line(n: nat)
    ensures
        !text::decimal(n).contains('\n'),
    decreases n,
{
    if n >= 10 {
        lemma_decimal_is_one_line(n / 10);
    }
}

proof fn lemma_texts_back(v: Seq<Seq<char>>)
    ensures
        read_texts(text_trees(v)) == Some(v),
    decreases v.len(),
{
    if v.len() > 0 {
        lemma_texts_back(v.drop_last());
        assert(text_trees(v).drop_last() =~= text_trees(v.drop_last()));
        assert(v.drop_last().push(v.last()) =~= v);
    } else {
        assert(v =~= Seq::empty());
    }
}

proof fn lemma_entry_back(e: ssh_ops::EntryView)
    ensures
        read_entry(entry_tree(e)) == Some(e),
{
    reveal_strlit("name");
    reveal_strlit("is_dir");
    reveal_strlit("is_symlink");
    assert("name"@.len() == 4);
    assert("is_dir"@.len() == 6);
    assert("is_symlink"@.len() == 10);
    reveal_with_fuel(json::named_from, 4);
    json::lemma_record(entry_tree(e)->Object_0, entry_names(), 3);
}

proof fn lemma_entries_back(v: Seq<ssh_ops::EntryView>)
    ensures
        read_entries(entry_trees(v)) == Some(v),
    decreases v.len(),
{
    if v.len() > 0 {
        lemma_entries_back(v.drop_last());
        lemma_entry_back(v.last());
        assert(entry_trees(v).drop_last() =~= entry_trees(v.drop_last()));
        assert(v.drop_last().push(v.last()) =~= v);
    } else {
        assert(v =~= Seq::empty());
    }
}

proof fn lemma_skill_back(s: ssh_ops::SkillView)
    ensures
        read_skill(skill_tree(s)) == Some(s),
{
    reveal_strlit("name");
    reveal_strlit("description");
    reveal_strlit("path");
    assert("name"@.len() == 4);
    assert("path"@.len() == 4);
    assert("name"@[0] != "path"@[0]);
    assert("description"@.len() == 11);
    reveal_with_fuel(json::named_from, 4);
    json::lemma_record(skill_tree(s)->Object_0, skill_names(), 3);
}

proof fn lemma_skills_back(v: Seq<ssh_ops::SkillView>)
    ensures
        read_skills(skill_trees(v)) == Some(v),
    decreases v.len(),
{
    if v.len() > 0 {
        lemma_skills_back(v.drop_last());
        lemma_skill_back(v.last());
        assert(skill_trees(v).drop_last() =~= skill_trees(v.drop_last()));
        assert(v.drop_last().push(v.last()) =~= v);
    } else {
        assert(v =~= Seq::empty());
    }
}

proof fn lemma_summary_back(g: ssh_ops::SummaryView)
    ensures
        read_summary(summary_tree(g)) == Some(g),
{
    reveal_strlit("is_repo");
    reveal_strlit("branch");
    reveal_strlit("dirty");
    reveal_strlit("ahead");
    reveal_strlit("behind");
    assert("is_repo"@.len() == 7);
    assert("branch"@.len() == 6);
    assert("behind"@.len() == 6);
    assert("branch"@[1] != "behind"@[1]);
    assert("dirty"@.len() == 5);
    assert("ahead"@.len() == 5);
    assert("dirty"@[0] != "ahead"@[0]);
    text::law_decimal_is_read_back(g.dirty as nat, count_max());
    text::law_decimal_is_read_back(g.ahead as nat, count_max());
    text::law_decimal_is_read_back(g.behind as nat, count_max());
    reveal_with_fuel(json::named_from, 6);
    let members = summary_tree(g)->Object_0;
    if g.branch is Some {
        assert(members =~= seq![
            ("is_repo"@, json::Tree::Bool(g.is_repo)),
            text_member("branch"@, g.branch->0),
            number_member("dirty"@, g.dirty as nat),
            number_member("ahead"@, g.ahead as nat),
            number_member("behind"@, g.behind as nat),
        ]);
    } else {
        assert(members =~= seq![
            ("is_repo"@, json::Tree::Bool(g.is_repo)),
            number_member("dirty"@, g.dirty as nat),
            number_member("ahead"@, g.ahead as nat),
            number_member("behind"@, g.behind as nat),
        ]);
    }
    json::lemma_record(members, summary_names(), 5);
}

proof fn lemma_file_back(path: Seq<char>, content: Seq<char>)
    ensures
        read_file(file_tree(path, content)) == Some((path, content)),
{
    lemma_names();
    reveal_with_fuel(json::named_from, 3);
    json::lemma_record(file_tree(path, content)->Object_0, seq!["path"@, "content"@], 2);
}

/// Whether the texts of the times in an answer read as the same times.
pub open spec fn reads_back(o: ssh_ops::OutcomeView) -> bool {
    match o {
        ssh_ops::OutcomeView::Result(ssh_ops::ResultView::ListSessions(v)) => rows::all_read_back(v),
        _ => true,
    }
}

/// How deep what is handed on in an answer may be.
pub const HANDED_DEPTH: usize = 122;

/// Whether the text of what is handed on in an answer is read as it is.
pub open spec fn hands_on_readable(o: ssh_ops::OutcomeView) -> bool {
    match o {
        ssh_ops::OutcomeView::Result(ssh_ops::ResultView::ListSessions(v)) => forall|i: int|
            0 <= i < v.len() ==> json::is_readable((#[trigger] v[i]).status, HANDED_DEPTH as nat),
        ssh_ops::OutcomeView::Result(
            ssh_ops::ResultView::SessionPreview { messages, .. },
        ) => all_readable(messages),
        ssh_ops::OutcomeView::Result(
            ssh_ops::ResultView::GetTodos { todos, goals, plan },
        ) => all_readable(todos) && all_readable(goals) && (plan is Some ==> json::is_readable(
            plan->0,
            HANDED_DEPTH as nat,
        )),
        _ => true,
    }
}

/// Whether the texts of values are read as they are.
pub open spec fn all_readable(items: Seq<json::Tree>) -> bool {
    forall|i: int|
        0 <= i < items.len() ==> json::is_readable(#[trigger] items[i], HANDED_DEPTH as nat)
}

/// What is read at some depth is read one deeper.
proof fn lemma_deeper(t: json::Tree, depth: nat)
    requires
        json::is_readable(t, depth),
    ensures
        json::is_readable(t, depth + 1),
    decreases depth,
{
    match t {
        json::Tree::Array(items) => {
            assert forall|i: int| 0 <= i < items.len() implies json::is_readable(
                #[trigger] items[i],
                depth,
            ) by {
                lemma_deeper(items[i], (depth - 1) as nat);
            }
        },
        json::Tree::Object(members) => {
            assert forall|i: int| 0 <= i < members.len() implies json::is_readable(
                (#[trigger] members[i]).1,
                depth,
            ) by {
                lemma_deeper(members[i].1, (depth - 1) as nat);
            }
        },
        _ => {},
    }
}

proof fn lemma_summary_is_readable(g: ssh_ops::SummaryView, depth: nat)
    requires
        depth > 1,
    ensures
        json::is_readable(summary_tree(g), depth),
{
    let members = summary_tree(g)->Object_0;
    let inner = (depth - 1) as nat;
    assert(json::is_readable(json::Tree::Number(text::decimal(g.dirty as nat)), inner));
    assert(json::is_readable(json::Tree::Number(text::decimal(g.ahead as nat)), inner));
    assert(json::is_readable(json::Tree::Number(text::decimal(g.behind as nat)), inner));
    assert forall|i: int| 0 <= i < members.len() implies json::is_readable(
        (#[trigger] members[i]).1,
        inner,
    ) by {
    }
}

/// The text of what an operation gave is read as it was written.
proof fn lemma_result_is_readable(r: ssh_ops::ResultView)
    requires
        hands_on_readable(ssh_ops::OutcomeView::Result(r)),
    ensures
        json::is_readable(result_tree(r), (PAYLOAD_DEPTH - 1) as nat),
{
    let outer = (PAYLOAD_DEPTH - 1) as nat;
    let inner = (PAYLOAD_DEPTH - 2) as nat;
    let deep = (PAYLOAD_DEPTH - 3) as nat;
    let least = (PAYLOAD_DEPTH - 4) as nat;
    assert(least == HANDED_DEPTH);
    let t = result_tree(r);
    if let json::Tree::Object(members) = t {
        let body = members[0].1;
        match r {
            ssh_ops::ResultView::ListSessions(v) => {
                let items = rows::row_trees(v);
                assert forall|i: int| 0 <= i < items.len() implies json::is_readable(
                    #[trigger] items[i],
                    deep,
                ) by {
                    rows::lemma_row_is_readable(v[i], least);
                }
            },
            ssh_ops::ResultView::SessionPreview { messages, .. } => {
                assert(json::is_readable(json::Tree::Array(messages), deep));
                let m = body->Object_0;
                assert forall|i: int| 0 <= i < m.len() implies json::is_readable(
                    (#[trigger] m[i]).1,
                    deep,
                ) by {
                }
            },
            ssh_ops::ResultView::GetTodos { todos, goals, plan } => {
                assert(json::is_readable(json::Tree::Array(todos), deep));
                assert(json::is_readable(json::Tree::Array(goals), deep));
                if let Some(plan) = plan {
                    lemma_deeper(plan, least);
                }
                let m = body->Object_0;
                assert forall|i: int| 0 <= i < m.len() implies json::is_readable(
                    (#[trigger] m[i]).1,
                    deep,
                ) by {
                }
            },
            ssh_ops::ResultView::ListPath(paths) => {
                let items = text_trees(paths);
                assert forall|i: int| 0 <= i < items.len() implies json::is_readable(
                    #[trigger] items[i],
                    deep,
                ) by {
                }
            },
            ssh_ops::ResultView::BrowseDir { path, entries, git } => {
                let items = entry_trees(entries);
                assert forall|i: int| 0 <= i < items.len() implies json::is_readable(
                    #[trigger] items[i],
                    least,
                ) by {
                    let e = items[i]->Object_0;
                    assert forall|j: int| 0 <= j < e.len() implies json::is_readable(
                        (#[trigger] e[j]).1,
                        (least - 1) as nat,
                    ) by {
                    }
                }
                assert(json::is_readable(json::Tree::Array(items), deep));
                if let Some(g) = git {
                    lemma_summary_is_readable(g, deep);
                }
                let m = body->Object_0;
                assert forall|i: int| 0 <= i < m.len() implies json::is_readable(
                    (#[trigger] m[i]).1,
                    deep,
                ) by {
                }
            },
            ssh_ops::ResultView::ListSkills(skills) => {
                let items = skill_trees(skills);
                assert forall|i: int| 0 <= i < items.len() implies json::is_readable(
                    #[trigger] items[i],
                    deep,
                ) by {
                    let e = items[i]->Object_0;
                    assert forall|j: int| 0 <= j < e.len() implies json::is_readable(
                        (#[trigger] e[j]).1,
                        least,
                    ) by {
                    }
                }
            },
            _ => {
                let m = body->Object_0;
                assert forall|i: int| 0 <= i < m.len() implies json::is_readable(
                    (#[trigger] m[i]).1,
                    deep,
                ) by {
                }
            },
        }
        assert(json::is_readable(body, inner));
        assert forall|i: int| 0 <= i < members.len() implies json::is_readable(
            (#[trigger] members[i]).1,
            inner,
        ) by {
        }
        assert(json::is_readable(t, outer));
    }
}

/// The text of an answer is read as what it was written of.
proof fn lemma_response_is_readable(id: u64, outcome: ssh_ops::OutcomeView)
    requires
        hands_on_readable(outcome),
    ensures
        json::is_readable(response_tree(id, outcome), PAYLOAD_DEPTH as nat),
{
    let members = response_tree(id, outcome)->Object_0;
    let inner = (PAYLOAD_DEPTH - 1) as nat;
    if let ssh_ops::OutcomeView::Result(r) = outcome {
        lemma_result_is_readable(r);
    }
    assert(json::is_readable(json::Tree::Number(text::decimal(id as nat)), inner));
    assert forall|i: int| 0 <= i < members.len() implies json::is_readable(
        (#[trigger] members[i]).1,
        inner,
    ) by {
    }
}

/// Whether a plan that is told is more than null.
pub open spec fn plan_stands(r: ssh_ops::ResultView) -> bool {
    match r {
        ssh_ops::ResultView::GetTodos { plan, .. } => plan != Some(json::Tree::Null),
        _ => true,
    }
}

/// What an operation gave is read as it was written.
pub proof fn lemma_result_back(r: ssh_ops::ResultView)
    requires
        plan_stands(r),
        reads_back(ssh_ops::OutcomeView::Result(r)),
    ensures
        read_result(result_tree(r)) == Some(r),
{
    lemma_names();
    lemma_op_names();
    reveal_with_fuel(json::named_from, 4);
    match r {
        ssh_ops::ResultView::ListSessions(v) => {
            rows::law_rows_are_read_back(v);
        },
        ssh_ops::ResultView::SessionPreview { session_id, messages } => {
            reveal_strlit("messages");
            assert("messages"@.len() == 8);
            let body = result_tree(r)->Object_0[0].1;
            json::lemma_record(body->Object_0, seq!["session_id"@, "messages"@], 2);
            assert(read_preview(body) == Some(r));
        },
        ssh_ops::ResultView::GetTodos { todos, goals, plan } => {
            reveal_strlit("todos");
            reveal_strlit("goals");
            reveal_strlit("plan");
            assert("todos"@.len() == 5);
            assert("goals"@.len() == 5);
            assert("todos"@[0] != "goals"@[0]);
            assert("plan"@.len() == 4);
            let body = result_tree(r)->Object_0[0].1;
            json::lemma_record(body->Object_0, seq!["todos"@, "goals"@, "plan"@], 2);
            assert(read_todos(body) == Some(r));
        },
        ssh_ops::ResultView::ReadConfig { path, content } => {
            lemma_file_back(path, content);
        },
        ssh_ops::ResultView::ReadFile { path, content } => {
            lemma_file_back(path, content);
        },
        ssh_ops::ResultView::ListPath(paths) => {
            lemma_texts_back(paths);
        },
        ssh_ops::ResultView::BrowseDir { path, entries, git } => {
            lemma_entries_back(entries);
            if let Some(g) = git {
                lemma_summary_back(g);
            }
            reveal_strlit("entries");
            reveal_strlit("git");
            assert("entries"@.len() == 7);
            assert("git"@.len() == 3);
            let body = result_tree(r)->Object_0[0].1;
            json::lemma_record(body->Object_0, seq!["path"@, "entries"@, "git"@], 3);
            assert(read_directory(body) == Some(r));
        },
        ssh_ops::ResultView::ListSkills(skills) => {
            lemma_skills_back(skills);
        },
        _ => {},
    }
}

/// An answer that was written is read as it was.
pub proof fn law_response_is_read_back(id: u64, outcome: ssh_ops::OutcomeView)
    requires
        outcome matches ssh_ops::OutcomeView::Result(r) ==> plan_stands(r),
        reads_back(outcome),
    ensures
        read_response(response_tree(id, outcome)) == Some((id, outcome)),
{
    text::law_decimal_is_read_back(id as nat, u64::MAX as nat);
    reveal_strlit("id");
    reveal_strlit("result");
    reveal_strlit("error");
    assert("id"@.len() == 2);
    assert("result"@.len() == 6);
    assert("error"@.len() == 5);
    reveal_with_fuel(json::named_from, 3);
    reveal_with_fuel(outcome_from, 3);
    if let ssh_ops::OutcomeView::Result(r) = outcome {
        lemma_result_back(r);
    }
    let payload = response_tree(id, outcome);
    json::lemma_record(payload->Object_0, seq!["id"@], 0);
    assert(read_outcome(payload) == Some(outcome));
}

/// What a request looks like: its number, the name of its operation, and what
/// the operation is about, each under its own name.
pub proof fn law_requests_are_written_as_named(id: u64, op: ssh_ops::OpView)
    ensures
        request_tree(id, op) == match op {
            ssh_ops::OpView::ListSessions => json::Tree::Object(
                seq![
                    ("id"@, json::Tree::Number(text::decimal(id as nat))),
                    ("op"@, json::Tree::Text("list_sessions"@)),
                ],
            ),
            ssh_ops::OpView::SessionPreview { session_id } => json::Tree::Object(
                seq![
                    ("id"@, json::Tree::Number(text::decimal(id as nat))),
                    ("op"@, json::Tree::Text("session_preview"@)),
                    ("session_id"@, json::Tree::Text(session_id)),
                ],
            ),
            ssh_ops::OpView::GetTodos { session_id } => json::Tree::Object(
                seq![
                    ("id"@, json::Tree::Number(text::decimal(id as nat))),
                    ("op"@, json::Tree::Text("get_todos"@)),
                    ("session_id"@, json::Tree::Text(session_id)),
                ],
            ),
            ssh_ops::OpView::ReadConfig => json::Tree::Object(
                seq![
                    ("id"@, json::Tree::Number(text::decimal(id as nat))),
                    ("op"@, json::Tree::Text("read_config"@)),
                ],
            ),
            ssh_ops::OpView::WriteConfig { content } => json::Tree::Object(
                seq![
                    ("id"@, json::Tree::Number(text::decimal(id as nat))),
                    ("op"@, json::Tree::Text("write_config"@)),
                    ("content"@, json::Tree::Text(content)),
                ],
            ),
            ssh_ops::OpView::ReadFile { path } => json::Tree::Object(
                seq![
                    ("id"@, json::Tree::Number(text::decimal(id as nat))),
                    ("op"@, json::Tree::Text("read_file"@)),
                    ("path"@, json::Tree::Text(path)),
                ],
            ),
            ssh_ops::OpView::WriteFile { path, content } => json::Tree::Object(
                seq![
                    ("id"@, json::Tree::Number(text::decimal(id as nat))),
                    ("op"@, json::Tree::Text("write_file"@)),
                    ("path"@, json::Tree::Text(path)),
                    ("content"@, json::Tree::Text(content)),
                ],
            ),
            ssh_ops::OpView::ListPath { prefix } => json::Tree::Object(
                seq![
                    ("id"@, json::Tree::Number(text::decimal(id as nat))),
                    ("op"@, json::Tree::Text("list_path"@)),
                    ("prefix"@, json::Tree::Text(prefix)),
                ],
            ),
            ssh_ops::OpView::BrowseDir { path } => json::Tree::Object(
                seq![
                    ("id"@, json::Tree::Number(text::decimal(id as nat))),
                    ("op"@, json::Tree::Text("browse_dir"@)),
                    ("path"@, json::Tree::Text(path)),
                ],
            ),
            ssh_ops::OpView::ListSkills => json::Tree::Object(
                seq![
                    ("id"@, json::Tree::Number(text::decimal(id as nat))),
                    ("op"@, json::Tree::Text("list_skills"@)),
                ],
            ),
            ssh_ops::OpView::SetSessionSaved { session_id, saved, save_label: None } => json::Tree::Object(
                seq![
                    ("id"@, json::Tree::Number(text::decimal(id as nat))),
                    ("op"@, json::Tree::Text("set_session_saved"@)),
                    ("session_id"@, json::Tree::Text(session_id)),
                    ("saved"@, json::Tree::Bool(saved)),
                ],
            ),
            ssh_ops::OpView::SetSessionSaved { session_id, saved, save_label: Some(label) } => json::Tree::Object(
                seq![
                    ("id"@, json::Tree::Number(text::decimal(id as nat))),
                    ("op"@, json::Tree::Text("set_session_saved"@)),
                    ("session_id"@, json::Tree::Text(session_id)),
                    ("saved"@, json::Tree::Bool(saved)),
                    ("save_label"@, json::Tree::Text(label)),
                ],
            ),
        },
{
    let got = request_tree(id, op)->Object_0;
    match op {
        ssh_ops::OpView::ListSessions => {
            assert(got =~= seq![("id"@, json::Tree::Number(text::decimal(id as nat))), ("op"@, json::Tree::Text("list_sessions"@))]);
        },
        ssh_ops::OpView::SessionPreview { session_id } => {
            assert(got =~= seq![("id"@, json::Tree::Number(text::decimal(id as nat))), ("op"@, json::Tree::Text("session_preview"@)), ("session_id"@, json::Tree::Text(session_id))]);
        },
        ssh_ops::OpView::GetTodos { session_id } => {
            assert(got =~= seq![("id"@, json::Tree::Number(text::decimal(id as nat))), ("op"@, json::Tree::Text("get_todos"@)), ("session_id"@, json::Tree::Text(session_id))]);
        },
        ssh_ops::OpView::ReadConfig => {
            assert(got =~= seq![("id"@, json::Tree::Number(text::decimal(id as nat))), ("op"@, json::Tree::Text("read_config"@))]);
        },
        ssh_ops::OpView::WriteConfig { content } => {
            assert(got =~= seq![("id"@, json::Tree::Number(text::decimal(id as nat))), ("op"@, json::Tree::Text("write_config"@)), ("content"@, json::Tree::Text(content))]);
        },
        ssh_ops::OpView::ReadFile { path } => {
            assert(got =~= seq![("id"@, json::Tree::Number(text::decimal(id as nat))), ("op"@, json::Tree::Text("read_file"@)), ("path"@, json::Tree::Text(path))]);
        },
        ssh_ops::OpView::WriteFile { path, content } => {
            assert(got =~= seq![("id"@, json::Tree::Number(text::decimal(id as nat))), ("op"@, json::Tree::Text("write_file"@)), ("path"@, json::Tree::Text(path)), ("content"@, json::Tree::Text(content))]);
        },
        ssh_ops::OpView::ListPath { prefix } => {
            assert(got =~= seq![("id"@, json::Tree::Number(text::decimal(id as nat))), ("op"@, json::Tree::Text("list_path"@)), ("prefix"@, json::Tree::Text(prefix))]);
        },
        ssh_ops::OpView::BrowseDir { path } => {
            assert(got =~= seq![("id"@, json::Tree::Number(text::decimal(id as nat))), ("op"@, json::Tree::Text("browse_dir"@)), ("path"@, json::Tree::Text(path))]);
        },
        ssh_ops::OpView::ListSkills => {
            assert(got =~= seq![("id"@, json::Tree::Number(text::decimal(id as nat))), ("op"@, json::Tree::Text("list_skills"@))]);
        },
        ssh_ops::OpView::SetSessionSaved { session_id, saved, save_label } => {
            match save_label {
                Some(label) => {
                    assert(got =~= seq![("id"@, json::Tree::Number(text::decimal(id as nat))), ("op"@, json::Tree::Text("set_session_saved"@)), ("session_id"@, json::Tree::Text(session_id)), ("saved"@, json::Tree::Bool(saved)), ("save_label"@, json::Tree::Text(label))]);
                },
                None => {
                    assert(got =~= seq![("id"@, json::Tree::Number(text::decimal(id as nat))), ("op"@, json::Tree::Text("set_session_saved"@)), ("session_id"@, json::Tree::Text(session_id)), ("saved"@, json::Tree::Bool(saved))]);
                },
            }
        },
    }
}

/// A line carries one member, under the key that marks it.
pub proof fn law_lines_carry_one_member(payload: json::Tree)
    ensures
        json::named(envelope(payload), "__jcode_ssh_op"@) == Some(payload),
        envelope(payload)->Object_0.len() == 1,
{
    reveal_with_fuel(json::named_from, 2);
}

/// An operation may be given by its name or by its place among the
/// operations, counted from zero.
pub proof fn law_operations_are_tagged_by_name_or_place(t: json::Tree, n: u64)
    ensures
        forall|s: Seq<char>| json::text_in(t, "op"@) == Some(s) ==> tag_in(t) == Some(s),
        json::named(t, "op"@) == Some(json::Tree::Number(text::decimal(n as nat))) ==> tag_in(t) == (
        match n {
            0 => Some("list_sessions"@),
            1 => Some("session_preview"@),
            2 => Some("set_session_saved"@),
            3 => Some("get_todos"@),
            4 => Some("read_config"@),
            5 => Some("write_config"@),
            6 => Some("read_file"@),
            7 => Some("write_file"@),
            8 => Some("list_path"@),
            9 => Some("browse_dir"@),
            10 => Some("list_skills"@),
            _ => None,
        }),
        json::named(t, "op"@) is None ==> tag_in(t) is None,
{
    text::law_decimal_is_read_back(n as nat, n as nat);
    if n <= 10 {
        text::law_decimal_is_read_back(n as nat, 10);
    }
}

/// An operation is read of exactly what stands under its names.
pub proof fn law_operations_are_read_by_name(t: json::Tree, op: ssh_ops::OpView)
    requires
        read_op(t) == Some(op),
    ensures
        match op {
            ssh_ops::OpView::ListSessions => tag_in(t) == Some("list_sessions"@),
            ssh_ops::OpView::SessionPreview { session_id } => tag_in(t) == Some("session_preview"@) && json::text_in(t, "session_id"@) == Some(session_id),
            ssh_ops::OpView::SetSessionSaved { session_id, saved, save_label } => tag_in(t) == Some("set_session_saved"@) && json::text_in(t, "session_id"@) == Some(session_id) && json::flag_in(t, "saved"@) == Some(saved) && json::opt_text_in(t, "save_label"@) == Some(save_label),
            ssh_ops::OpView::GetTodos { session_id } => tag_in(t) == Some("get_todos"@) && json::text_in(t, "session_id"@) == Some(session_id),
            ssh_ops::OpView::ReadConfig => tag_in(t) == Some("read_config"@),
            ssh_ops::OpView::WriteConfig { content } => tag_in(t) == Some("write_config"@) && json::text_in(t, "content"@) == Some(content),
            ssh_ops::OpView::ReadFile { path } => tag_in(t) == Some("read_file"@) && json::text_in(t, "path"@) == Some(path),
            ssh_ops::OpView::WriteFile { path, content } => tag_in(t) == Some("write_file"@) && json::text_in(t, "path"@) == Some(path) && json::text_in(t, "content"@) == Some(content),
            ssh_ops::OpView::ListPath { prefix } => tag_in(t) == Some("list_path"@) && json::text_in(t, "prefix"@) == Some(prefix),
            ssh_ops::OpView::BrowseDir { path } => tag_in(t) == Some("browse_dir"@) && json::text_in(t, "path"@) == Some(path),
            ssh_ops::OpView::ListSkills => tag_in(t) == Some("list_skills"@),
        },
{
    lemma_op_names();
}

/// A request is read of an object with one number and one operation.
pub proof fn law_requests_are_read_by_name(t: json::Tree, id: u64, op: ssh_ops::OpView)
    requires
        read_request(t) == Some((id, op)),
    ensures
        json::number_in(t, "id"@, u64::MAX as nat) == Some(id as nat),
        read_op(t) == Some(op),
        t matches json::Tree::Object(members) && forall|i: int, j: int|
            0 <= i < j < members.len() && ((#[trigger] members[i]).0 == "id"@ || members[i].0
                == "op"@) ==> (#[trigger] members[j]).0 != members[i].0,
{
    json::law_members_are_read_by_kind(t, "id"@, u64::MAX as nat);
    let names = seq!["id"@, "op"@];
    assert(names[0] == "id"@);
    assert(names[1] == "op"@);
    assert(names.contains("id"@));
    assert(names.contains("op"@));
}

/// What an entry of a directory, a skill and a summary of a work tree look
/// like, each value under its own name.
pub proof fn law_rows_of_answers_are_written_as_named(
    e: ssh_ops::EntryView,
    s: ssh_ops::SkillView,
    g: ssh_ops::SummaryView,
)
    ensures
        entry_tree(e)->Object_0 == seq![
            ("name"@, json::Tree::Text(e.name)),
            ("is_dir"@, json::Tree::Bool(e.is_dir)),
            ("is_symlink"@, json::Tree::Bool(e.is_symlink)),
        ],
        skill_tree(s)->Object_0 == seq![
            ("name"@, json::Tree::Text(s.name)),
            ("description"@, json::Tree::Text(s.description)),
            ("path"@, json::Tree::Text(s.path)),
        ],
        g.branch is None ==> summary_tree(g)->Object_0 == seq![
            ("is_repo"@, json::Tree::Bool(g.is_repo)),
            ("dirty"@, json::Tree::Number(text::decimal(g.dirty as nat))),
            ("ahead"@, json::Tree::Number(text::decimal(g.ahead as nat))),
            ("behind"@, json::Tree::Number(text::decimal(g.behind as nat))),
        ],
        g.branch matches Some(branch) ==> summary_tree(g)->Object_0 == seq![
            ("is_repo"@, json::Tree::Bool(g.is_repo)),
            ("branch"@, json::Tree::Text(branch)),
            ("dirty"@, json::Tree::Number(text::decimal(g.dirty as nat))),
            ("ahead"@, json::Tree::Number(text::decimal(g.ahead as nat))),
            ("behind"@, json::Tree::Number(text::decimal(g.behind as nat))),
        ],
{
    match g.branch {
        None => {
            assert(summary_tree(g)->Object_0 =~= seq![
                ("is_repo"@, json::Tree::Bool(g.is_repo)),
                ("dirty"@, json::Tree::Number(text::decimal(g.dirty as nat))),
                ("ahead"@, json::Tree::Number(text::decimal(g.ahead as nat))),
                ("behind"@, json::Tree::Number(text::decimal(g.behind as nat))),
            ]);
        },
        Some(branch) => {
            assert(summary_tree(g)->Object_0 =~= seq![
                ("is_repo"@, json::Tree::Bool(g.is_repo)),
                ("branch"@, json::Tree::Text(branch)),
                ("dirty"@, json::Tree::Number(text::decimal(g.dirty as nat))),
                ("ahead"@, json::Tree::Number(text::decimal(g.ahead as nat))),
                ("behind"@, json::Tree::Number(text::decimal(g.behind as nat))),
            ]);
        },
    }
}

/// The body of a result under the name of its operation.
pub open spec fn named_result(name: Seq<char>, body: json::Tree) -> json::Tree {
    json::Tree::Object(seq![(name, body)])
}

/// What a result looks like: its body under the name of its operation, or the
/// name alone where there is no body.
pub proof fn law_results_are_written_as_named(r: ssh_ops::ResultView)
    ensures
        result_tree(r) == match r {
            ssh_ops::ResultView::ListSessions(v) => named_result(
                "list_sessions"@,
                json::Tree::Array(v.map_values(|e: rows::RowView| rows::row_tree(e))),
            ),
            ssh_ops::ResultView::SessionPreview { session_id, messages } => named_result(
                "session_preview"@,
                json::Tree::Object(
                    seq![
                        ("session_id"@, json::Tree::Text(session_id)),
                        ("messages"@, json::Tree::Array(messages)),
                    ],
                ),
            ),
            ssh_ops::ResultView::SetSessionSaved => json::Tree::Text("set_session_saved"@),
            ssh_ops::ResultView::GetTodos { todos, goals, plan: None } => named_result(
                "get_todos"@,
                json::Tree::Object(
                    seq![
                        ("todos"@, json::Tree::Array(todos)),
                        ("goals"@, json::Tree::Array(goals)),
                    ],
                ),
            ),
            ssh_ops::ResultView::GetTodos { todos, goals, plan: Some(plan) } => named_result(
                "get_todos"@,
                json::Tree::Object(
                    seq![
                        ("todos"@, json::Tree::Array(todos)),
                        ("goals"@, json::Tree::Array(goals)),
                        ("plan"@, plan),
                    ],
                ),
            ),
            ssh_ops::ResultView::ReadConfig { path, content } => named_result(
                "read_config"@,
                json::Tree::Object(
                    seq![
                        ("path"@, json::Tree::Text(path)),
                        ("content"@, json::Tree::Text(content)),
                    ],
                ),
            ),
            ssh_ops::ResultView::WriteConfig => json::Tree::Text("write_config"@),
            ssh_ops::ResultView::ReadFile { path, content } => named_result(
                "read_file"@,
                json::Tree::Object(
                    seq![
                        ("path"@, json::Tree::Text(path)),
                        ("content"@, json::Tree::Text(content)),
                    ],
                ),
            ),
            ssh_ops::ResultView::WriteFile => json::Tree::Text("write_file"@),
            ssh_ops::ResultView::ListPath(paths) => named_result(
                "list_path"@,
                json::Tree::Array(paths.map_values(|s: Seq<char>| json::Tree::Text(s))),
            ),
            ssh_ops::ResultView::BrowseDir { path, entries, git } => named_result(
                "browse_dir"@,
                json::Tree::Object(
                    seq![
                        ("path"@, json::Tree::Text(path)),
                        (
                            "entries"@,
                            json::Tree::Array(
                                entries.map_values(|e: ssh_ops::EntryView| entry_tree(e)),
                            ),
                        ),
                        (
                            "git"@,
                            match git {
                                Some(git) => summary_tree(git),
                                None => json::Tree::Null,
                            },
                        ),
                    ],
                ),
            ),
            ssh_ops::ResultView::ListSkills(skills) => named_result(
                "list_skills"@,
                json::Tree::Array(skills.map_values(|s: ssh_ops::SkillView| skill_tree(s))),
            ),
        },
{
    match r {
        ssh_ops::ResultView::ListSessions(v) => {
            assert(rows::row_trees(v) =~= v.map_values(|e: rows::RowView| rows::row_tree(e)));
        },
        ssh_ops::ResultView::GetTodos { todos, goals, plan } => {
            if let Some(plan) = plan {
                assert(seq![
                    ("todos"@, json::Tree::Array(todos)),
                    ("goals"@, json::Tree::Array(goals)),
                ].push(("plan"@, plan)) =~= seq![
                    ("todos"@, json::Tree::Array(todos)),
                    ("goals"@, json::Tree::Array(goals)),
                    ("plan"@, plan),
                ]);
            }
        },
        ssh_ops::ResultView::ListPath(paths) => {
            assert(text_trees(paths) =~= paths.map_values(|s: Seq<char>| json::Tree::Text(s)));
        },
        ssh_ops::ResultView::BrowseDir { entries, .. } => {
            assert(entry_trees(entries) =~= entries.map_values(
                |e: ssh_ops::EntryView| entry_tree(e),
            ));
        },
        ssh_ops::ResultView::ListSkills(skills) => {
            assert(skill_trees(skills) =~= skills.map_values(
                |s: ssh_ops::SkillView| skill_tree(s),
            ));
        },
        _ => {},
    }
}

/// What a response looks like: the number of its request, and the result or
/// the error.
pub proof fn law_responses_are_written_as_named(
    id: u64,
    r: ssh_ops::ResultView,
    message: Seq<char>,
)
    ensures
        response_tree(id, ssh_ops::OutcomeView::Result(r)) == json::Tree::Object(
            seq![
                ("id"@, json::Tree::Number(text::decimal(id as nat))),
                ("result"@, result_tree(r)),
            ],
        ),
        response_tree(id, ssh_ops::OutcomeView::Error(message)) == json::Tree::Object(
            seq![
                ("id"@, json::Tree::Number(text::decimal(id as nat))),
                ("error"@, json::Tree::Text(message)),
            ],
        ),
{
}

/// A response is read of an object: the number, and the first member that is
/// a result or an error.
pub proof fn law_the_first_outcome_is_read(
    before: Seq<(Seq<char>, json::Tree)>,
    behind: Seq<(Seq<char>, json::Tree)>,
    result: json::Tree,
    message: Seq<char>,
)
    requires
        forall|i: int| #![trigger before[i]]
            0 <= i < before.len() ==> before[i].0 != "result"@ && before[i].0 != "error"@,
    ensures
        read_result(result) matches Some(r) ==> read_outcome(
            json::Tree::Object(before.push(("result"@, result)) + behind),
        ) == Some(ssh_ops::OutcomeView::Result(r)),
        read_result(result) is None ==> read_outcome(
            json::Tree::Object(before.push(("result"@, result)) + behind),
        ) is None,
        read_outcome(
            json::Tree::Object(before.push(("error"@, json::Tree::Text(message))) + behind),
        ) == Some(ssh_ops::OutcomeView::Error(message)),
        read_outcome(json::Tree::Object(before)) is None,
{
    reveal_strlit("result");
    reveal_strlit("error");
    assert("result"@.len() == 6);
    assert("error"@.len() == 5);
    let a = before.push(("result"@, result)) + behind;
    lemma_outcome_behind(a, before.len() as int, 0);
    let b = before.push(("error"@, json::Tree::Text(message))) + behind;
    lemma_outcome_behind(b, before.len() as int, 0);
    lemma_outcome_behind(before, before.len() as int, 0);
}

proof fn lemma_outcome_behind(members: Seq<(Seq<char>, json::Tree)>, at: int, k: int)
    requires
        0 <= k <= at <= members.len(),
        forall|i: int| #![trigger members[i]]
            0 <= i < at ==> members[i].0 != "result"@ && members[i].0 != "error"@,
    ensures
        outcome_from(members, k) == outcome_from(members, at),
    decreases at - k,
{
    if k < at {
        lemma_outcome_behind(members, at, k + 1);
    }
}

/// Entries are read where each of them is, in order.
pub proof fn law_lists_of_entries_are_read(items: Seq<json::Tree>, v: Seq<ssh_ops::EntryView>)
    ensures
        read_entries(items) == Some(v) <==> (items.len() == v.len() && forall|i: int| #![trigger items[i]]
            0 <= i < items.len() ==> read_entry(items[i]) == Some(v[i])),
    decreases items.len(),
{
    if items.len() > 0 {
        let before = items.drop_last();
        if let Some(u) = read_entries(before) {
            law_lists_of_entries_are_read(before, u);
            if let Some(x) = read_entry(items.last()) {
                if items.len() == v.len() && forall|i: int| #![trigger items[i]]
                    0 <= i < items.len() ==> read_entry(items[i]) == Some(v[i]) {
                    assert forall|i: int| 0 <= i < v.len() implies u.push(x)[i] == v[i] by {
                        if i < before.len() {
                            assert(before[i] == items[i]);
                        } else {
                            assert(items[i] == items.last());
                        }
                    }
                    assert(u.push(x) =~= v);
                }
                assert forall|i: int| #![trigger items[i]] 0 <= i < items.len() implies read_entry(
                    items[i],
                ) == Some(u.push(x)[i]) by {
                    if i < before.len() {
                        assert(before[i] == items[i]);
                    } else {
                        assert(items[i] == items.last());
                    }
                }
            } else {
                assert(items[items.len() - 1] == items.last());
            }
        } else if items.len() == v.len() && forall|i: int| #![trigger items[i]]
            0 <= i < items.len() ==> read_entry(items[i]) == Some(v[i]) {
            assert forall|i: int| #![trigger before[i]] 0 <= i < before.len() implies read_entry(
                before[i],
            ) == Some(v.drop_last()[i]) by {
                assert(before[i] == items[i]);
            }
            law_lists_of_entries_are_read(before, v.drop_last());
        }
    } else {
        assert(items =~= Seq::empty());
        if v.len() == 0 {
            assert(v =~= Seq::empty());
        }
    }
}

/// Skills are read where each of them is, in order.
pub proof fn law_lists_of_skills_are_read(items: Seq<json::Tree>, v: Seq<ssh_ops::SkillView>)
    ensures
        read_skills(items) == Some(v) <==> (items.len() == v.len() && forall|i: int| #![trigger items[i]]
            0 <= i < items.len() ==> read_skill(items[i]) == Some(v[i])),
    decreases items.len(),
{
    if items.len() > 0 {
        let before = items.drop_last();
        if let Some(u) = read_skills(before) {
            law_lists_of_skills_are_read(before, u);
            if let Some(x) = read_skill(items.last()) {
                if items.len() == v.len() && forall|i: int| #![trigger items[i]]
                    0 <= i < items.len() ==> read_skill(items[i]) == Some(v[i]) {
                    assert forall|i: int| 0 <= i < v.len() implies u.push(x)[i] == v[i] by {
                        if i < before.len() {
                            assert(before[i] == items[i]);
                        } else {
                            assert(items[i] == items.last());
                        }
                    }
                    assert(u.push(x) =~= v);
                }
                assert forall|i: int| #![trigger items[i]] 0 <= i < items.len() implies read_skill(
                    items[i],
                ) == Some(u.push(x)[i]) by {
                    if i < before.len() {
                        assert(before[i] == items[i]);
                    } else {
                        assert(items[i] == items.last());
                    }
                }
            } else {
                assert(items[items.len() - 1] == items.last());
            }
        } else if items.len() == v.len() && forall|i: int| #![trigger items[i]]
            0 <= i < items.len() ==> read_skill(items[i]) == Some(v[i]) {
            assert forall|i: int| #![trigger before[i]] 0 <= i < before.len() implies read_skill(
                before[i],
            ) == Some(v.drop_last()[i]) by {
                assert(before[i] == items[i]);
            }
            law_lists_of_skills_are_read(before, v.drop_last());
        }
    } else {
        assert(items =~= Seq::empty());
        if v.len() == 0 {
            assert(v =~= Seq::empty());
        }
    }
}

/// The payload of a line is the member under the key that marks it, wherever it
/// stands among the members, if it stands there once; under no member, or
/// under two, there is none.
pub proof fn law_the_payload_stands_once(
    before: Seq<(Seq<char>, Seq<char>)>,
    behind: Seq<(Seq<char>, Seq<char>)>,
    value: Seq<char>,
)
    requires
        forall|i: int| #![trigger before[i]]
            0 <= i < before.len() ==> before[i].0 != "__jcode_ssh_op"@,
    ensures
        only_from(before, "__jcode_ssh_op"@, 0) is None,
        (forall|i: int| #![trigger behind[i]]
            0 <= i < behind.len() ==> behind[i].0 != "__jcode_ssh_op"@) ==> only_from(
            before.push(("__jcode_ssh_op"@, value)) + behind,
            "__jcode_ssh_op"@,
            0,
        ) == Some(value),
        (exists|i: int| #![trigger behind[i]]
            0 <= i < behind.len() && behind[i].0 == "__jcode_ssh_op"@) ==> only_from(
            before.push(("__jcode_ssh_op"@, value)) + behind,
            "__jcode_ssh_op"@,
            0,
        ) is None,
{
    let key = "__jcode_ssh_op"@;
    let all = before.push((key, value)) + behind;
    let at = before.len() as int;
    lemma_only_behind(before, key, at, 0);
    lemma_only_behind(all, key, at, 0);
    assert(all[at] == (key, value));
    if forall|i: int| #![trigger behind[i]] 0 <= i < behind.len() ==> behind[i].0 != key {
        assert forall|i: int| at < i < all.len() implies (#[trigger] all[i]).0 != key by {
            assert(all[i] == behind[i - at - 1]);
        }
    } else {
        let i = choose|i: int| #![trigger behind[i]] 0 <= i < behind.len() && behind[i].0 == key;
        assert(all[at + 1 + i] == behind[i]);
    }
}

proof fn lemma_only_behind(parts: Seq<(Seq<char>, Seq<char>)>, name: Seq<char>, at: int, k: int)
    requires
        0 <= k <= at <= parts.len(),
        forall|i: int| #![trigger parts[i]] 0 <= i < at ==> parts[i].0 != name,
    ensures
        only_from(parts, name, k) == only_from(parts, name, at),
    decreases at - k,
{
    if k < at {
        lemma_only_behind(parts, name, at, k + 1);
    }
}

/// A line is read as an object, by the key that marks it, or as a list of one;
/// what it carries is read as a document of bounded depth.
pub proof fn law_lines_are_objects_or_lists_of_one(line: Seq<char>)
    ensures
        reader::parts_in(line, true) matches Some(parts) ==> payload_text(line) == only_from(
            parts,
            "__jcode_ssh_op"@,
            0,
        ),
        reader::parts_in(line, true) is None ==> (payload_text(line) is Some <==> (reader::parts_in(
            line,
            false,
        ) matches Some(parts) && parts.len() == 1)),
        reader::parts_in(line, true) is None ==> (payload_text(line) matches Some(inner)
            ==> reader::parts_in(line, false)->0[0].1 == inner),
        payload_in(line) matches Some(t) ==> (payload_text(line) matches Some(inner)
            && reader::tree_in(inner, 126) == Some(t)),
        request_on(line) matches Some(r) ==> (payload_in(line) matches Some(t) && read_request(t)
            == Some(r)),
        response_on(line) matches Some(r) ==> (payload_in(line) matches Some(t) && read_response(t)
            == Some(r)),
{
}

/// A summary of a work tree, an entry, a skill and a file are read of exactly
/// what stands under their names.
pub proof fn law_parts_of_results_are_read_by_name(
    t: json::Tree,
    g: ssh_ops::SummaryView,
    e: ssh_ops::EntryView,
    s: ssh_ops::SkillView,
    path: Seq<char>,
    content: Seq<char>,
)
    requires
        t is Object,
    ensures
        read_summary(t) == Some(g) ==> json::flag_in(t, "is_repo"@) == Some(g.is_repo)
            && json::opt_text_in(t, "branch"@) == Some(g.branch) && json::number_in(
            t,
            "dirty"@,
            usize::MAX as nat,
        ) == Some(g.dirty as nat) && json::number_in(t, "ahead"@, usize::MAX as nat) == Some(
            g.ahead as nat,
        ) && json::number_in(t, "behind"@, usize::MAX as nat) == Some(g.behind as nat),
        read_entry(t) == Some(e) ==> json::text_in(t, "name"@) == Some(e.name) && json::flag_in(
            t,
            "is_dir"@,
        ) == Some(e.is_dir) && json::flag_in(t, "is_symlink"@) == Some(e.is_symlink),
        read_skill(t) == Some(s) ==> json::text_in(t, "name"@) == Some(s.name) && json::text_in(
            t,
            "description"@,
        ) == Some(s.description) && json::text_in(t, "path"@) == Some(s.path),
        read_file(t) == Some((path, content)) ==> json::text_in(t, "path"@) == Some(path)
            && json::text_in(t, "content"@) == Some(content),
{
    json::law_members_are_read_by_kind(t, "dirty"@, usize::MAX as nat);
    json::law_members_are_read_by_kind(t, "ahead"@, usize::MAX as nat);
    json::law_members_are_read_by_kind(t, "behind"@, usize::MAX as nat);
}

/// What a result may leave out: a directory has no summary where it is missing
/// or null, and a list of things to do no plan.
pub proof fn law_results_are_read_with_their_defaults(t: json::Tree)
    ensures
        json::named(t, "git"@) is None ==> read_git(t) == Some(None::<ssh_ops::SummaryView>),
        json::named(t, "git"@) == Some(json::Tree::Null) ==> read_git(t) == Some(
            None::<ssh_ops::SummaryView>,
        ),
        json::named(t, "git"@) matches Some(g) ==> (read_summary(g) matches Some(s) ==> read_git(t)
            == Some(Some(s))),
        json::named(t, "plan"@) is None ==> read_plan(t) is None,
        json::named(t, "plan"@) == Some(json::Tree::Null) ==> read_plan(t) is None,
        json::named(t, "plan"@) matches Some(p) ==> !(p is Null) ==> read_plan(t) == Some(p),
{
    assert(!(json::Tree::Null is Object) && !(json::Tree::Null is Array));
}

/// The bodies of a preview, of a list of things to do and of a directory are read
/// of exactly what stands under their names.
pub proof fn law_bodies_of_results_are_read_by_name(t: json::Tree)
    requires
        t is Object,
    ensures
        read_preview(t) matches Some(r) ==> (r matches ssh_ops::ResultView::SessionPreview {
            session_id,
            messages,
        } && json::text_in(t, "session_id"@) == Some(session_id) && json::items_in(t, "messages"@)
            == Some(messages)),
        read_todos(t) matches Some(r) ==> (r matches ssh_ops::ResultView::GetTodos {
            todos,
            goals,
            plan,
        } && json::items_in(t, "todos"@) == Some(todos) && json::items_in(t, "goals"@) == Some(goals)
            && plan == read_plan(t)),
        read_directory(t) matches Some(r) ==> (r matches ssh_ops::ResultView::BrowseDir {
            path,
            entries,
            git,
        } && json::text_in(t, "path"@) == Some(path) && (json::items_in(t, "entries"@) matches Some(
            items,
        ) && read_entries(items) == Some(entries)) && read_git(t) == Some(git)),
{
}

/// A result without a body is its bare name, or its name over null or an empty
/// object; there are three of these, and no other result may lack its body.
pub proof fn law_results_without_a_body(name: Seq<char>, body: json::Tree)
    ensures
        read_result(json::Tree::Text("set_session_saved"@)) == Some(
            ssh_ops::ResultView::SetSessionSaved,
        ),
        read_result(json::Tree::Text("write_config"@)) == Some(ssh_ops::ResultView::WriteConfig),
        read_result(json::Tree::Text("write_file"@)) == Some(ssh_ops::ResultView::WriteFile),
        name != "set_session_saved"@ && name != "write_config"@ && name != "write_file"@
            ==> read_result(json::Tree::Text(name)) is None,
        name == "set_session_saved"@ || name == "write_config"@ || name == "write_file"@ ==> (
        read_result(named_result(name, body)) == if body == json::Tree::Null || body
            == json::Tree::Object(Seq::empty()) {
            read_result(json::Tree::Text(name))
        } else {
            None
        }),
        read_result(json::Tree::Null) is None,
{
    lemma_op_names();
    if let json::Tree::Object(members) = body {
        if members.len() == 0 {
            assert(members =~= Seq::empty());
        }
    }
}

/// A result with a body is read by the name of its operation.
pub proof fn law_results_are_read_by_operation(body: json::Tree)
    ensures
        body matches json::Tree::Array(items) ==> (rows::read_rows(items) matches Some(v)
            ==> read_result(named_result("list_sessions"@, body)) == Some(
            ssh_ops::ResultView::ListSessions(v),
        )),
        read_result(named_result("session_preview"@, body)) == read_preview(body),
        read_result(named_result("get_todos"@, body)) == read_todos(body),
        read_file(body) matches Some((path, content)) ==> read_result(
            named_result("read_config"@, body),
        ) == Some(ssh_ops::ResultView::ReadConfig { path, content }) && read_result(
            named_result("read_file"@, body),
        ) == Some(ssh_ops::ResultView::ReadFile { path, content }),
        read_file(body) is None ==> read_result(named_result("read_config"@, body)) is None
            && read_result(named_result("read_file"@, body)) is None,
        body matches json::Tree::Array(items) ==> (read_texts(items) matches Some(paths)
            ==> read_result(named_result("list_path"@, body)) == Some(
            ssh_ops::ResultView::ListPath(paths),
        )),
        read_result(named_result("browse_dir"@, body)) == read_directory(body),
        body matches json::Tree::Array(items) ==> (read_skills(items) matches Some(skills)
            ==> read_result(named_result("list_skills"@, body)) == Some(
            ssh_ops::ResultView::ListSkills(skills),
        )),
        !(body is Array) ==> read_result(named_result("list_sessions"@, body)) is None
            && read_result(named_result("list_path"@, body)) is None && read_result(
            named_result("list_skills"@, body),
        ) is None,
{
    lemma_op_names();
}

/// No operation is read where what it is about stands twice.
pub proof fn law_operations_tell_each_thing_once(t: json::Tree, op: ssh_ops::OpView, i: int, j: int)
    requires
        read_op(t) == Some(op),
        t is Object,
        0 <= i < j < t->Object_0.len(),
        t->Object_0[i].0 == t->Object_0[j].0,
    ensures
        op is SessionPreview || op is GetTodos || op is SetSessionSaved ==> t->Object_0[i].0
            != "session_id"@,
        op is SetSessionSaved ==> t->Object_0[i].0 != "saved"@ && t->Object_0[i].0 != "save_label"@,
        op is WriteConfig || op is WriteFile ==> t->Object_0[i].0 != "content"@,
        op is ReadFile || op is BrowseDir || op is WriteFile ==> t->Object_0[i].0 != "path"@,
        op is ListPath ==> t->Object_0[i].0 != "prefix"@,
{
    lemma_op_names();
    let name = tag_in(t)->0;
    let fields = op_fields(name);
    assert(json::known_once(t->Object_0, fields));
    assert(!fields.contains(t->Object_0[i].0));
    assert(fields.len() > 0 ==> fields.contains(fields[0]));
    assert(fields.len() > 1 ==> fields.contains(fields[1]));
    assert(fields.len() > 2 ==> fields.contains(fields[2]));
}

} // verus!
