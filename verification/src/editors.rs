//! The field editors: the decision codes the prompts parse, and the verified
//! mutations each editor performs on the working document.

use vstd::prelude::*;

use crate::doc::{
    doc_bools, doc_hosts, doc_ints, doc_servers, doc_strs, doc_try, get_bool, get_i64, get_str,
    no_names, remove_scalar, remove_servers_table, server_remove, server_set, servers_rows,
    set_bool, set_i64, set_str, try_remove, try_rows, try_set,
};
use crate::text::{
    ascii_lower, lower_seq, spec_trim, str_eq, trim_str,
};

verus! {

/// The decision a scalar field editor asks for.
#[derive(Clone, Copy, Debug, PartialEq, Eq, Structural)]
pub enum Action {
    Skip,
    Edit,
    Delete,
}

/// The decision code a scalar field prompt accepts: empty input or `s` skip,
/// `e` edits, `d` deletes where deleting is offered; case and surrounding
/// white space are ignored.
pub open spec fn spec_parse_action(s: Seq<char>, allow_delete: bool) -> Option<Action> {
    let t = lower_seq(spec_trim(s));
    if t.len() == 0 || t == "s"@ {
        Some(Action::Skip)
    } else if t == "e"@ {
        Some(Action::Edit)
    } else if allow_delete && t == "d"@ {
        Some(Action::Delete)
    } else {
        None
    }
}

/// Parses the one-letter decision code of a field prompt; `None` asks the
/// caller to repeat the prompt.
pub fn parse_action(input: &str, allow_delete: bool) -> (r: Option<Action>)
    ensures
        r == spec_parse_action(input@, allow_delete),
{
    let trimmed = trim_str(input);
    let t = ascii_lower(trimmed.as_str());
    if t.as_str().unicode_len() == 0 || str_eq(t.as_str(), "s") {
        Some(Action::Skip)
    } else if str_eq(t.as_str(), "e") {
        Some(Action::Edit)
    } else if allow_delete && str_eq(t.as_str(), "d") {
        Some(Action::Delete)
    } else {
        None
    }
}

/// A yes/no answer: empty input takes the default, `y`/`yes` and `n`/`no`
/// are accepted in any case, anything else asks again.
pub open spec fn spec_parse_yes_no(s: Seq<char>, default: bool) -> Option<bool> {
    let t = lower_seq(spec_trim(s));
    if t.len() == 0 {
        Some(default)
    } else if t == "y"@ || t == "yes"@ {
        Some(true)
    } else if t == "n"@ || t == "no"@ {
        Some(false)
    } else {
        None
    }
}

/// Parses a yes/no answer; `None` asks the caller to repeat the prompt.
pub fn parse_yes_no(input: &str, default: bool) -> (r: Option<bool>)
    ensures
        r == spec_parse_yes_no(input@, default),
{
    let trimmed = trim_str(input);
    let t = ascii_lower(trimmed.as_str());
    if t.as_str().unicode_len() == 0 {
        Some(default)
    } else if str_eq(t.as_str(), "y") || str_eq(t.as_str(), "yes") {
        Some(true)
    } else if str_eq(t.as_str(), "n") || str_eq(t.as_str(), "no") {
        Some(false)
    } else {
        None
    }
}

/// What one scalar field editor decided for a string field.
#[derive(Clone, Debug)]
pub enum StringEdit {
    Skip,
    Delete,
    Store(String),
}

/// What one scalar field editor decided for a boolean field.
#[derive(Clone, Copy, Debug)]
pub enum BoolEdit {
    Skip,
    Delete,
    Store(bool),
}

/// What one scalar field editor decided for the numeric field.
#[derive(Clone, Copy, Debug)]
pub enum IntEdit {
    Skip,
    Delete,
    Store(u32),
}

/// How an applied string edit relates the document before and after:
/// skipping touches nothing, deleting drops the key, storing records the
/// new string under the key.
pub open spec fn string_field_edited(
    pre: toml_edit::DocumentMut,
    post: toml_edit::DocumentMut,
    key: Seq<char>,
    edit: StringEdit,
) -> bool {
    match edit {
        StringEdit::Skip => post == pre,
        StringEdit::Delete => {
            &&& doc_strs(post) == doc_strs(pre).remove(key)
            &&& doc_bools(post) == doc_bools(pre).remove(key)
            &&& doc_ints(post) == doc_ints(pre).remove(key)
            &&& doc_servers(post) == doc_servers(pre)
            &&& doc_try(post) == doc_try(pre)
            &&& doc_hosts(post) == doc_hosts(pre)
        },
        StringEdit::Store(v) => {
            &&& doc_strs(post) == doc_strs(pre).insert(key, v@)
            &&& doc_bools(post) == doc_bools(pre).remove(key)
            &&& doc_ints(post) == doc_ints(pre).remove(key)
            &&& doc_servers(post) == doc_servers(pre)
            &&& doc_try(post) == doc_try(pre)
            &&& doc_hosts(post) == doc_hosts(pre)
        },
    }
}

/// How an applied boolean edit relates the document before and after.
pub open spec fn bool_field_edited(
    pre: toml_edit::DocumentMut,
    post: toml_edit::DocumentMut,
    key: Seq<char>,
    edit: BoolEdit,
) -> bool {
    match edit {
        BoolEdit::Skip => post == pre,
        BoolEdit::Delete => {
            &&& doc_strs(post) == doc_strs(pre).remove(key)
            &&& doc_bools(post) == doc_bools(pre).remove(key)
            &&& doc_ints(post) == doc_ints(pre).remove(key)
            &&& doc_servers(post) == doc_servers(pre)
            &&& doc_try(post) == doc_try(pre)
            &&& doc_hosts(post) == doc_hosts(pre)
        },
        BoolEdit::Store(v) => {
            &&& doc_bools(post) == doc_bools(pre).insert(key, v)
            &&& doc_strs(post) == doc_strs(pre).remove(key)
            &&& doc_ints(post) == doc_ints(pre).remove(key)
            &&& doc_servers(post) == doc_servers(pre)
            &&& doc_try(post) == doc_try(pre)
            &&& doc_hosts(post) == doc_hosts(pre)
        },
    }
}

/// How an applied numeric edit relates the document before and after.
pub open spec fn int_field_edited(
    pre: toml_edit::DocumentMut,
    post: toml_edit::DocumentMut,
    key: Seq<char>,
    edit: IntEdit,
) -> bool {
    match edit {
        IntEdit::Skip => post == pre,
        IntEdit::Delete => {
            &&& doc_strs(post) == doc_strs(pre).remove(key)
            &&& doc_bools(post) == doc_bools(pre).remove(key)
            &&& doc_ints(post) == doc_ints(pre).remove(key)
            &&& doc_servers(post) == doc_servers(pre)
            &&& doc_try(post) == doc_try(pre)
            &&& doc_hosts(post) == doc_hosts(pre)
        },
        IntEdit::Store(v) => {
            &&& doc_ints(post) == doc_ints(pre).insert(key, v as int)
            &&& doc_strs(post) == doc_strs(pre).remove(key)
            &&& doc_bools(post) == doc_bools(pre).remove(key)
            &&& doc_servers(post) == doc_servers(pre)
            &&& doc_try(post) == doc_try(pre)
            &&& doc_hosts(post) == doc_hosts(pre)
        },
    }
}

/// A top-level scalar key the editors may touch; never one of the two
/// collection tables.
pub open spec fn scalar_key(key: Seq<char>) -> bool {
    key != "servers"@ && key != "forced-hosts"@
}

fn edit_string_field(doc: &mut toml_edit::DocumentMut, key: &str, edit: &StringEdit)
    requires
        scalar_key(key@),
    ensures
        string_field_edited(*old(doc), *final(doc), key@, *edit),
{
    match edit {
        StringEdit::Skip => {},
        StringEdit::Delete => remove_scalar(doc, key),
        StringEdit::Store(v) => set_str(doc, key, v.as_str()),
    }
}

fn edit_bool_field(doc: &mut toml_edit::DocumentMut, key: &str, edit: &BoolEdit)
    requires
        scalar_key(key@),
    ensures
        bool_field_edited(*old(doc), *final(doc), key@, *edit),
{
    match edit {
        BoolEdit::Skip => {},
        BoolEdit::Delete => remove_scalar(doc, key),
        BoolEdit::Store(v) => set_bool(doc, key, *v),
    }
}

fn edit_int_field(doc: &mut toml_edit::DocumentMut, key: &str, edit: &IntEdit)
    requires
        scalar_key(key@),
    ensures
        int_field_edited(*old(doc), *final(doc), key@, *edit),
{
    match edit {
        IntEdit::Skip => {},
        IntEdit::Delete => remove_scalar(doc, key),
        IntEdit::Store(v) => set_i64(doc, key, *v as i64),
    }
}

/// The value a map of string scalars holds at a key, or the field's default.
pub open spec fn opt_str(m: Map<Seq<char>, Seq<char>>, key: Seq<char>, default: Seq<char>) -> Seq<
    char,
> {
    if m.dom().contains(key) {
        m[key]
    } else {
        default
    }
}

/// The value a map of boolean scalars holds at a key, or the field's default.
pub open spec fn opt_bool(m: Map<Seq<char>, bool>, key: Seq<char>, default: bool) -> bool {
    if m.dom().contains(key) {
        m[key]
    } else {
        default
    }
}

/// The value a map of integer scalars holds at a key when it fits a `u32`,
/// or the field's default; a missing, wrongly typed or out-of-range value
/// degrades to the default.
pub open spec fn opt_u32(m: Map<Seq<char>, int>, key: Seq<char>, default: u32) -> u32 {
    if m.dom().contains(key) && 0 <= m[key] <= u32::MAX {
        m[key] as u32
    } else {
        default
    }
}

fn current_string_field(doc: &toml_edit::DocumentMut, key: &str, default: &str) -> (r: String)
    ensures
        r@ == opt_str(doc_strs(*doc), key@, default@),
{
    match get_str(doc, key) {
        Some(v) => v,
        None => default.to_owned(),
    }
}

fn current_bool_field(doc: &toml_edit::DocumentMut, key: &str, default: bool) -> (r: bool)
    ensures
        r == opt_bool(doc_bools(*doc), key@, default),
{
    match get_bool(doc, key) {
        Some(v) => v,
        None => default,
    }
}

fn current_u32_field(doc: &toml_edit::DocumentMut, key: &str, default: u32) -> (r: u32)
    ensures
        r == opt_u32(doc_ints(*doc), key@, default),
{
    match get_i64(doc, key) {
        Some(v) => {
            if 0 <= v && v <= u32::MAX as i64 {
                v as u32
            } else {
                default
            }
        },
        None => default,
    }
}

proof fn lemma_field_keys_are_scalar()
    ensures
        scalar_key("bind"@),
        scalar_key("motd"@),
        scalar_key("show-max-players"@),
        scalar_key("online-mode"@),
        scalar_key("force-key-authentication"@),
        scalar_key("player-info-forwarding-mode"@),
        scalar_key("forwarding-secret-file"@),
{
    reveal_strlit("bind");
    reveal_strlit("motd");
    reveal_strlit("show-max-players");
    reveal_strlit("online-mode");
    reveal_strlit("force-key-authentication");
    reveal_strlit("player-info-forwarding-mode");
    reveal_strlit("forwarding-secret-file");
    reveal_strlit("servers");
    reveal_strlit("forced-hosts");
    assert("bind"@.len() == 4);
    assert("motd"@.len() == 4);
    assert("show-max-players"@.len() == 16);
    assert("online-mode"@.len() == 11);
    assert("force-key-authentication"@.len() == 24);
    assert("player-info-forwarding-mode"@.len() == 27);
    assert("forwarding-secret-file"@.len() == 22);
    assert("servers"@.len() == 7);
    assert("forced-hosts"@.len() == 12);
}

/// The listen address the document holds, or its documented default.
pub fn current_bind(doc: &toml_edit::DocumentMut) -> (r: String)
    ensures
        r@ == opt_str(doc_strs(*doc), "bind"@, "0.0.0.0:25565"@),
{
    current_string_field(doc, "bind", "0.0.0.0:25565")
}

/// The bind field editor's mutation.
pub fn edit_bind(doc: &mut toml_edit::DocumentMut, edit: &StringEdit)
    ensures
        string_field_edited(*old(doc), *final(doc), "bind"@, *edit),
{
    proof {
        lemma_field_keys_are_scalar();
    }
    edit_string_field(doc, "bind", edit);
}

/// The message of the day the document holds, or its documented default.
pub fn current_motd(doc: &toml_edit::DocumentMut) -> (r: String)
    ensures
        r@ == opt_str(doc_strs(*doc), "motd"@, "<#09add3>A Velocity Server"@),
{
    current_string_field(doc, "motd", "<#09add3>A Velocity Server")
}

/// The message-of-the-day field editor's mutation.
pub fn edit_motd(doc: &mut toml_edit::DocumentMut, edit: &StringEdit)
    ensures
        string_field_edited(*old(doc), *final(doc), "motd"@, *edit),
{
    proof {
        lemma_field_keys_are_scalar();
    }
    edit_string_field(doc, "motd", edit);
}

/// The forwarding-secret-file path the document holds, or its default.
pub fn current_forwarding_secret_file(doc: &toml_edit::DocumentMut) -> (r: String)
    ensures
        r@ == opt_str(doc_strs(*doc), "forwarding-secret-file"@, "forwarding.secret"@),
{
    current_string_field(doc, "forwarding-secret-file", "forwarding.secret")
}

/// The forwarding-secret-file field editor's mutation.
pub fn edit_forwarding_secret_file(doc: &mut toml_edit::DocumentMut, edit: &StringEdit)
    ensures
        string_field_edited(*old(doc), *final(doc), "forwarding-secret-file"@, *edit),
{
    proof {
        lemma_field_keys_are_scalar();
    }
    edit_string_field(doc, "forwarding-secret-file", edit);
}

/// The displayed player cap the document holds when it fits, or its default.
pub fn current_show_max_players(doc: &toml_edit::DocumentMut) -> (r: u32)
    ensures
        r == opt_u32(doc_ints(*doc), "show-max-players"@, 500),
{
    current_u32_field(doc, "show-max-players", 500)
}

/// The displayed-player-cap field editor's mutation.
pub fn edit_show_max_players(doc: &mut toml_edit::DocumentMut, edit: &IntEdit)
    ensures
        int_field_edited(*old(doc), *final(doc), "show-max-players"@, *edit),
{
    proof {
        lemma_field_keys_are_scalar();
    }
    edit_int_field(doc, "show-max-players", edit);
}

/// The online-mode flag the document holds, or its documented default.
pub fn current_online_mode(doc: &toml_edit::DocumentMut) -> (r: bool)
    ensures
        r == opt_bool(doc_bools(*doc), "online-mode"@, true),
{
    current_bool_field(doc, "online-mode", true)
}

/// The online-mode field editor's mutation.
pub fn edit_online_mode(doc: &mut toml_edit::DocumentMut, edit: &BoolEdit)
    ensures
        bool_field_edited(*old(doc), *final(doc), "online-mode"@, *edit),
{
    proof {
        lemma_field_keys_are_scalar();
    }
    edit_bool_field(doc, "online-mode", edit);
}

/// The key-authentication flag the document holds, or its documented default.
pub fn current_force_key_authentication(doc: &toml_edit::DocumentMut) -> (r: bool)
    ensures
        r == opt_bool(doc_bools(*doc), "force-key-authentication"@, true),
{
    current_bool_field(doc, "force-key-authentication", true)
}

/// The key-authentication field editor's mutation.
pub fn edit_force_key_authentication(doc: &mut toml_edit::DocumentMut, edit: &BoolEdit)
    ensures
        bool_field_edited(*old(doc), *final(doc), "force-key-authentication"@, *edit),
{
    proof {
        lemma_field_keys_are_scalar();
    }
    edit_bool_field(doc, "force-key-authentication", edit);
}

/// The forwarding mode stored for the numbered menu entry, upper-cased as
/// the document stores it.
pub open spec fn mode_upper(i: int) -> Seq<char> {
    if i == 1 {
        "NONE"@
    } else if i == 2 {
        "LEGACY"@
    } else if i == 3 {
        "BUNGEEGUARD"@
    } else {
        "MODERN"@
    }
}

/// The forwarding mode shown for the numbered menu entry, lower-cased as
/// the menu lists it.
pub open spec fn mode_lower(i: int) -> Seq<char> {
    if i == 1 {
        "none"@
    } else if i == 2 {
        "legacy"@
    } else if i == 3 {
        "bungeeguard"@
    } else {
        "modern"@
    }
}

/// The menu label of one forwarding mode.
pub fn forwarding_mode_option(i: usize) -> (r: String)
    requires
        1 <= i <= 4,
    ensures
        r@ == mode_lower(i as int),
{
    if i == 1 {
        "none".to_owned()
    } else if i == 2 {
        "legacy".to_owned()
    } else if i == 3 {
        "bungeeguard".to_owned()
    } else {
        "modern".to_owned()
    }
}

/// The forwarding mode the document holds (or its default `NONE`),
/// lower-cased for display.
pub fn current_forwarding_mode(doc: &toml_edit::DocumentMut) -> (r: String)
    ensures
        r@ == lower_seq(opt_str(doc_strs(*doc), "player-info-forwarding-mode"@, "NONE"@)),
{
    let cur = current_string_field(doc, "player-info-forwarding-mode", "NONE");
    ascii_lower(cur.as_str())
}

/// The menu index pre-selected for a current (lower-cased) forwarding mode:
/// the mode's own entry, or the first entry when it is unrecognized.
pub open spec fn spec_mode_index(current: Seq<char>) -> int {
    if current == "none"@ {
        1
    } else if current == "legacy"@ {
        2
    } else if current == "bungeeguard"@ {
        3
    } else if current == "modern"@ {
        4
    } else {
        1
    }
}

/// The default menu selection for the forwarding-mode prompt.
pub fn forwarding_mode_default_index(current: &str) -> (r: usize)
    ensures
        r as int == spec_mode_index(current@),
{
    if str_eq(current, "none") {
        1
    } else if str_eq(current, "legacy") {
        2
    } else if str_eq(current, "bungeeguard") {
        3
    } else if str_eq(current, "modern") {
        4
    } else {
        1
    }
}

/// The stored form of one forwarding mode, upper-cased as the document
/// keeps it.
pub fn forwarding_mode_value(i: usize) -> (r: String)
    requires
        1 <= i <= 4,
    ensures
        r@ == mode_upper(i as int),
{
    if i == 1 {
        "NONE".to_owned()
    } else if i == 2 {
        "LEGACY".to_owned()
    } else if i == 3 {
        "BUNGEEGUARD".to_owned()
    } else {
        "MODERN".to_owned()
    }
}

/// What the forwarding-mode editor decided: keep, delete, or store the mode
/// picked from the numbered menu.
#[derive(Clone, Copy, Debug)]
pub enum ModeEdit {
    Skip,
    Delete,
    Select(usize),
}

/// How an applied forwarding-mode edit relates the document before and
/// after; a selection stores the chosen mode upper-cased.
pub open spec fn mode_field_edited(
    pre: toml_edit::DocumentMut,
    post: toml_edit::DocumentMut,
    edit: ModeEdit,
) -> bool {
    match edit {
        ModeEdit::Skip => post == pre,
        ModeEdit::Delete => {
            &&& doc_strs(post) == doc_strs(pre).remove("player-info-forwarding-mode"@)
            &&& doc_bools(post) == doc_bools(pre).remove("player-info-forwarding-mode"@)
            &&& doc_ints(post) == doc_ints(pre).remove("player-info-forwarding-mode"@)
            &&& doc_servers(post) == doc_servers(pre)
            &&& doc_try(post) == doc_try(pre)
            &&& doc_hosts(post) == doc_hosts(pre)
        },
        ModeEdit::Select(i) => {
            &&& doc_strs(post) == doc_strs(pre).insert(
                "player-info-forwarding-mode"@,
                mode_upper(i as int),
            )
            &&& doc_bools(post) == doc_bools(pre).remove("player-info-forwarding-mode"@)
            &&& doc_ints(post) == doc_ints(pre).remove("player-info-forwarding-mode"@)
            &&& doc_servers(post) == doc_servers(pre)
            &&& doc_try(post) == doc_try(pre)
            &&& doc_hosts(post) == doc_hosts(pre)
        },
    }
}

/// The forwarding-mode field editor's mutation.
pub fn edit_forwarding_mode(doc: &mut toml_edit::DocumentMut, edit: &ModeEdit)
    requires
        *edit matches ModeEdit::Select(i) ==> 1 <= i <= 4,
    ensures
        mode_field_edited(*old(doc), *final(doc), *edit),
{
    proof {
        lemma_field_keys_are_scalar();
    }
    match edit {
        ModeEdit::Skip => {},
        ModeEdit::Delete => remove_scalar(doc, "player-info-forwarding-mode"),
        ModeEdit::Select(i) => {
            let mode: &str = if *i == 1 {
                "NONE"
            } else if *i == 2 {
                "LEGACY"
            } else if *i == 3 {
                "BUNGEEGUARD"
            } else {
                "MODERN"
            };
            set_str(doc, "player-info-forwarding-mode", mode);
        },
    }
}

/// The choice offered inside the server-mapping sub-menu.
#[derive(Clone, Copy, Debug, PartialEq, Eq, Structural)]
pub enum ServerMenu {
    Add,
    EditExisting,
    Remove,
    Finish,
}

/// The sub-menu code the server editor accepts: empty input or `f`
/// finishes, `a` adds, `e` edits, `r` removes; anything else asks again.
pub open spec fn spec_parse_server_menu(s: Seq<char>) -> Option<ServerMenu> {
    let t = lower_seq(spec_trim(s));
    if t.len() == 0 || t == "f"@ {
        Some(ServerMenu::Finish)
    } else if t == "a"@ {
        Some(ServerMenu::Add)
    } else if t == "e"@ {
        Some(ServerMenu::EditExisting)
    } else if t == "r"@ {
        Some(ServerMenu::Remove)
    } else {
        None
    }
}

/// Parses the server sub-menu code; `None` asks the caller to repeat.
pub fn parse_server_menu(input: &str) -> (r: Option<ServerMenu>)
    ensures
        r == spec_parse_server_menu(input@),
{
    let trimmed = trim_str(input);
    let t = ascii_lower(trimmed.as_str());
    if t.as_str().unicode_len() == 0 || str_eq(t.as_str(), "f") {
        Some(ServerMenu::Finish)
    } else if str_eq(t.as_str(), "a") {
        Some(ServerMenu::Add)
    } else if str_eq(t.as_str(), "e") {
        Some(ServerMenu::EditExisting)
    } else if str_eq(t.as_str(), "r") {
        Some(ServerMenu::Remove)
    } else {
        None
    }
}

/// Why a server-mapping operation was rejected; each one leaves the
/// document untouched and the prompt is repeated.
#[derive(Clone, Copy, Debug, PartialEq, Eq, Structural)]
pub enum ServerEditError {
    EmptyName,
    ReservedName,
    DuplicateName,
    EmptyAddress,
    UnknownName,
}

/// Every row of the `servers` table: the keys are distinct and carry the
/// string address, or `None` for an entry whose value is not a string.
pub fn server_entries(doc: &toml_edit::DocumentMut) -> (r: Vec<(String, Option<String>)>)
    ensures
        crate::doc::rows_match_map(r.deep_view(), doc_servers(*doc)),
{
    servers_rows(doc)
}

fn doc_has_server_key(doc: &toml_edit::DocumentMut, key: &str) -> (r: bool)
    ensures
        r == doc_servers(*doc).dom().contains(key@),
{
    let rows = servers_rows(doc);
    let ghost rv = rows.deep_view();
    let mut i: usize = 0;
    while i < rows.len()
        invariant
            0 <= i <= rows.len(),
            rv == rows.deep_view(),
            rv.len() == rows.len(),
            forall|j: int| 0 <= j < rv.len() ==> (#[trigger] rv[j]).0 == rows@[j].0@,
            crate::doc::rows_match_map(rv, doc_servers(*doc)),
            forall|j: int| 0 <= j < i ==> (#[trigger] rv[j]).0 != key@,
        decreases rows.len() - i,
    {
        if str_eq(rows[i].0.as_str(), key) {
            proof {
                assert(doc_servers(*doc).contains_pair(rv[i as int].0, rv[i as int].1));
            }
            return true;
        }
        i = i + 1;
    }
    proof {
        if doc_servers(*doc).dom().contains(key@) {
            let j = choose|j: int| 0 <= j < rv.len() && (#[trigger] rv[j]).0 == key@;
            assert(false);
        }
    }
    false
}

/// Checks the name offered for a new server entry: it must be non-blank
/// once trimmed, must not be the reserved key `try`, and must not already
/// exist; on success the trimmed name is returned.
pub fn check_new_server_name(doc: &toml_edit::DocumentMut, name_input: &str) -> (r: Result<
    String,
    ServerEditError,
>)
    ensures
        ({
            let name = spec_trim(name_input@);
            if name.len() == 0 {
                r == Err::<String, ServerEditError>(ServerEditError::EmptyName)
            } else if name == "try"@ {
                r == Err::<String, ServerEditError>(ServerEditError::ReservedName)
            } else if doc_servers(*doc).dom().contains(name) {
                r == Err::<String, ServerEditError>(ServerEditError::DuplicateName)
            } else {
                r is Ok && r->Ok_0@ == name
            }
        }),
{
    let name = trim_str(name_input);
    if name.as_str().unicode_len() == 0 {
        return Err(ServerEditError::EmptyName);
    }
    if str_eq(name.as_str(), "try") {
        return Err(ServerEditError::ReservedName);
    }
    if doc_has_server_key(doc, name.as_str()) {
        return Err(ServerEditError::DuplicateName);
    }
    Ok(name)
}

/// Checks the name offered for editing an existing server entry: it must
/// be non-blank once trimmed and must already exist.
pub fn check_existing_server_name(doc: &toml_edit::DocumentMut, name_input: &str) -> (r: Result<
    String,
    ServerEditError,
>)
    ensures
        ({
            let name = spec_trim(name_input@);
            if name.len() == 0 {
                r == Err::<String, ServerEditError>(ServerEditError::EmptyName)
            } else if !doc_servers(*doc).dom().contains(name) {
                r == Err::<String, ServerEditError>(ServerEditError::UnknownName)
            } else {
                r is Ok && r->Ok_0@ == name
            }
        }),
{
    let name = trim_str(name_input);
    if name.as_str().unicode_len() == 0 {
        return Err(ServerEditError::EmptyName);
    }
    if !doc_has_server_key(doc, name.as_str()) {
        return Err(ServerEditError::UnknownName);
    }
    Ok(name)
}

/// Adds one server entry. The name is rejected when blank, when it is the
/// reserved key `try`, or when an entry of that name already exists; the
/// address is rejected when blank. Every rejection leaves the document
/// untouched; on success the trimmed name maps to the trimmed address.
pub fn add_server(doc: &mut toml_edit::DocumentMut, name_input: &str, addr_input: &str) -> (r:
    Result<(), ServerEditError>)
    ensures
        ({
            let name = spec_trim(name_input@);
            let addr = spec_trim(addr_input@);
            if name.len() == 0 {
                r == Err::<(), ServerEditError>(ServerEditError::EmptyName) && *final(doc) == *old(
                    doc,
                )
            } else if name == "try"@ {
                r == Err::<(), ServerEditError>(ServerEditError::ReservedName) && *final(doc)
                    == *old(doc)
            } else if doc_servers(*old(doc)).dom().contains(name) {
                r == Err::<(), ServerEditError>(ServerEditError::DuplicateName) && *final(doc)
                    == *old(doc)
            } else if addr.len() == 0 {
                r == Err::<(), ServerEditError>(ServerEditError::EmptyAddress) && *final(doc)
                    == *old(doc)
            } else {
                &&& r is Ok
                &&& doc_servers(*final(doc)) == doc_servers(*old(doc)).insert(name, Some(addr))
                &&& doc_try(*final(doc)) == doc_try(*old(doc))
                &&& doc_hosts(*final(doc)) == doc_hosts(*old(doc))
                &&& doc_strs(*final(doc)) == doc_strs(*old(doc)).remove("servers"@)
                &&& doc_bools(*final(doc)) == doc_bools(*old(doc)).remove("servers"@)
                &&& doc_ints(*final(doc)) == doc_ints(*old(doc)).remove("servers"@)
            }
        }),
{
    let name = match check_new_server_name(doc, name_input) {
        Ok(name) => name,
        Err(e) => {
            return Err(e);
        },
    };
    let addr = trim_str(addr_input);
    if addr.as_str().unicode_len() == 0 {
        return Err(ServerEditError::EmptyAddress);
    }
    server_set(doc, name.as_str(), addr.as_str());
    Ok(())
}

/// Replaces the address of one existing server entry. The name is rejected
/// when blank or unknown, the address when blank; every rejection leaves
/// the document untouched.
pub fn edit_server(doc: &mut toml_edit::DocumentMut, name_input: &str, addr_input: &str) -> (r:
    Result<(), ServerEditError>)
    ensures
        ({
            let name = spec_trim(name_input@);
            let addr = spec_trim(addr_input@);
            if name.len() == 0 {
                r == Err::<(), ServerEditError>(ServerEditError::EmptyName) && *final(doc) == *old(
                    doc,
                )
            } else if !doc_servers(*old(doc)).dom().contains(name) {
                r == Err::<(), ServerEditError>(ServerEditError::UnknownName) && *final(doc)
                    == *old(doc)
            } else if addr.len() == 0 {
                r == Err::<(), ServerEditError>(ServerEditError::EmptyAddress) && *final(doc)
                    == *old(doc)
            } else {
                &&& r is Ok
                &&& doc_servers(*final(doc)) == doc_servers(*old(doc)).insert(name, Some(addr))
                &&& doc_try(*final(doc)) == if name == "try"@ {
                    no_names()
                } else {
                    doc_try(*old(doc))
                }
                &&& doc_hosts(*final(doc)) == doc_hosts(*old(doc))
                &&& doc_strs(*final(doc)) == doc_strs(*old(doc)).remove("servers"@)
                &&& doc_bools(*final(doc)) == doc_bools(*old(doc)).remove("servers"@)
                &&& doc_ints(*final(doc)) == doc_ints(*old(doc)).remove("servers"@)
            }
        }),
{
    let name = match check_existing_server_name(doc, name_input) {
        Ok(name) => name,
        Err(e) => {
            return Err(e);
        },
    };
    let addr = trim_str(addr_input);
    if addr.as_str().unicode_len() == 0 {
        return Err(ServerEditError::EmptyAddress);
    }
    server_set(doc, name.as_str(), addr.as_str());
    Ok(())
}

/// Removes one row of the `servers` table by name. A blank name is
/// rejected; an unknown name reports `UnknownName` and removes nothing;
/// otherwise the row disappears (removing the reserved `try` row clears
/// the try order).
pub fn remove_server(doc: &mut toml_edit::DocumentMut, name_input: &str) -> (r: Result<
    (),
    ServerEditError,
>)
    ensures
        ({
            let name = spec_trim(name_input@);
            if name.len() == 0 {
                r == Err::<(), ServerEditError>(ServerEditError::EmptyName) && *final(doc) == *old(
                    doc,
                )
            } else {
                &&& r == if doc_servers(*old(doc)).dom().contains(name) {
                    Ok::<(), ServerEditError>(())
                } else {
                    Err::<(), ServerEditError>(ServerEditError::UnknownName)
                }
                &&& doc_servers(*final(doc)) == doc_servers(*old(doc)).remove(name)
                &&& doc_try(*final(doc)) == if name == "try"@ {
                    no_names()
                } else {
                    doc_try(*old(doc))
                }
                &&& doc_hosts(*final(doc)) == doc_hosts(*old(doc))
                &&& doc_strs(*final(doc)) == doc_strs(*old(doc))
                &&& doc_bools(*final(doc)) == doc_bools(*old(doc))
                &&& doc_ints(*final(doc)) == doc_ints(*old(doc))
            }
        }),
{
    let name = trim_str(name_input);
    if name.as_str().unicode_len() == 0 {
        return Err(ServerEditError::EmptyName);
    }
    if server_remove(doc, name.as_str()) {
        Ok(())
    } else {
        Err(ServerEditError::UnknownName)
    }
}

/// The server editor's whole-table delete: drops the `servers` table and,
/// with it, every entry and the try order.
pub fn delete_servers(doc: &mut toml_edit::DocumentMut)
    ensures
        doc_servers(*final(doc)) == crate::doc::no_servers(),
        doc_try(*final(doc)) == no_names(),
        doc_strs(*final(doc)) == doc_strs(*old(doc)).remove("servers"@),
        doc_bools(*final(doc)) == doc_bools(*old(doc)).remove("servers"@),
        doc_ints(*final(doc)) == doc_ints(*old(doc)).remove("servers"@),
        doc_hosts(*final(doc)) == doc_hosts(*old(doc)),
{
    remove_servers_table(doc);
}

/// One displayed line of the current server list.
pub open spec fn spec_server_line(row: (Seq<char>, Option<Seq<char>>)) -> Seq<char> {
    row.0 + " = "@ + (match row.1 {
        Some(addr) => addr,
        None => "<非対応の値>"@,
    })
}

/// The displayed server list: one line per row, the reserved `try` row
/// left out, in the rows' own order.
pub open spec fn spec_server_lines(rows: Seq<(Seq<char>, Option<Seq<char>>)>) -> Seq<Seq<char>>
    decreases rows.len(),
{
    if rows.len() == 0 {
        Seq::empty()
    } else {
        spec_server_lines(rows.drop_last()) + (if rows.last().0 == "try"@ {
            Seq::empty()
        } else {
            seq![spec_server_line(rows.last())]
        })
    }
}

/// Renders the current server list for display, one `name = address` line
/// per entry.
pub fn server_list_lines(rows: &Vec<(String, Option<String>)>) -> (r: Vec<String>)
    ensures
        r.deep_view() == spec_server_lines(rows.deep_view()),
{
    let ghost rv = rows.deep_view();
    let mut out: Vec<String> = Vec::new();
    let mut i: usize = 0;
    while i < rows.len()
        invariant
            0 <= i <= rows.len(),
            rv == rows.deep_view(),
            rv.len() == rows.len(),
            forall|j: int| 0 <= j < rv.len() ==> #[trigger] rv[j] == (
                rows@[j].0@,
                rows@[j].1.deep_view(),
            ),
            out.deep_view() == spec_server_lines(rv.take(i as int)),
        decreases rows.len() - i,
    {
        proof {
            assert(rv.take(i + 1).drop_last() == rv.take(i as int));
            assert(rv.take(i + 1).last() == rv[i as int]);
        }
        if !str_eq(rows[i].0.as_str(), "try") {
            let mut line = rows[i].0.clone();
            line.append(" = ");
            match &rows[i].1 {
                Some(addr) => line.append(addr.as_str()),
                None => line.append("<非対応の値>"),
            }
            out.push(line);
        }
        i = i + 1;
    }
    proof {
        assert(rv.take(rv.len() as int) == rv);
    }
    out
}

/// The defined server names: the keys of the string-valued rows, the
/// reserved `try` row left out, in the rows' own order.
pub open spec fn spec_server_names(rows: Seq<(Seq<char>, Option<Seq<char>>)>) -> Seq<Seq<char>>
    decreases rows.len(),
{
    if rows.len() == 0 {
        Seq::empty()
    } else {
        spec_server_names(rows.drop_last()) + (if rows.last().0 != "try"@ && rows.last().1 is Some {
            seq![rows.last().0]
        } else {
            Seq::empty()
        })
    }
}

/// The names currently defined in the server mapping.
pub fn server_names(rows: &Vec<(String, Option<String>)>) -> (r: Vec<String>)
    ensures
        r.deep_view() == spec_server_names(rows.deep_view()),
{
    let ghost rv = rows.deep_view();
    let mut out: Vec<String> = Vec::new();
    let mut i: usize = 0;
    while i < rows.len()
        invariant
            0 <= i <= rows.len(),
            rv == rows.deep_view(),
            rv.len() == rows.len(),
            forall|j: int| 0 <= j < rv.len() ==> #[trigger] rv[j] == (
                rows@[j].0@,
                rows@[j].1.deep_view(),
            ),
            out.deep_view() == spec_server_names(rv.take(i as int)),
        decreases rows.len() - i,
    {
        proof {
            assert(rv.take(i + 1).drop_last() == rv.take(i as int));
            assert(rv.take(i + 1).last() == rv[i as int]);
        }
        if !str_eq(rows[i].0.as_str(), "try") && rows[i].1.is_some() {
            out.push(rows[i].0.clone());
        }
        i = i + 1;
    }
    proof {
        assert(rv.take(rv.len() as int) == rv);
    }
    out
}

/// The current try order, in document order.
pub fn try_list(doc: &toml_edit::DocumentMut) -> (r: Vec<String>)
    ensures
        r.deep_view() == doc_try(*doc),
{
    try_rows(doc)
}

/// The entries of a list that name no defined server, in list order.
pub open spec fn spec_unknown_names(list: Seq<Seq<char>>, names: Seq<Seq<char>>) -> Seq<Seq<char>>
    decreases list.len(),
{
    if list.len() == 0 {
        Seq::empty()
    } else {
        spec_unknown_names(list.drop_last(), names) + (if names.contains(list.last()) {
            Seq::empty()
        } else {
            seq![list.last()]
        })
    }
}

/// The entries of a try-order input that name no defined server, in input
/// order; the operator is warned about these and may override.
pub fn unknown_names(list: &Vec<String>, names: &Vec<String>) -> (r: Vec<String>)
    ensures
        r.deep_view() == spec_unknown_names(list.deep_view(), names.deep_view()),
{
    let ghost lv = list.deep_view();
    let mut out: Vec<String> = Vec::new();
    let mut i: usize = 0;
    while i < list.len()
        invariant
            0 <= i <= list.len(),
            lv == list.deep_view(),
            lv.len() == list.len(),
            forall|j: int| 0 <= j < lv.len() ==> lv[j] == list@[j]@,
            out.deep_view() == spec_unknown_names(lv.take(i as int), names.deep_view()),
        decreases list.len() - i,
    {
        proof {
            assert(lv.take(i + 1).drop_last() == lv.take(i as int));
            assert(lv.take(i + 1).last() == lv[i as int]);
        }
        if !crate::text::vec_contains_string(names, list[i].as_str()) {
            out.push(list[i].clone());
        }
        i = i + 1;
    }
    proof {
        assert(lv.take(lv.len() as int) == lv);
    }
    out
}

/// Stores a new try order: the accepted, non-empty list replaces the `try`
/// array inside the `servers` table.
pub fn store_try(doc: &mut toml_edit::DocumentMut, list: &Vec<String>)
    requires
        list.deep_view().len() > 0,
    ensures
        doc_try(*final(doc)) == list.deep_view(),
        doc_servers(*final(doc)) == doc_servers(*old(doc)).insert("try"@, None),
        doc_strs(*final(doc)) == doc_strs(*old(doc)).remove("servers"@),
        doc_bools(*final(doc)) == doc_bools(*old(doc)).remove("servers"@),
        doc_ints(*final(doc)) == doc_ints(*old(doc)).remove("servers"@),
        doc_hosts(*final(doc)) == doc_hosts(*old(doc)),
{
    try_set(doc, list);
}

/// The try editor's delete: removes only the `try` key, leaving server
/// entries intact.
pub fn delete_try(doc: &mut toml_edit::DocumentMut)
    ensures
        doc_try(*final(doc)) == no_names(),
        doc_servers(*final(doc)) == doc_servers(*old(doc)).remove("try"@),
        doc_strs(*final(doc)) == doc_strs(*old(doc)),
        doc_bools(*final(doc)) == doc_bools(*old(doc)),
        doc_ints(*final(doc)) == doc_ints(*old(doc)),
        doc_hosts(*final(doc)) == doc_hosts(*old(doc)),
{
    try_remove(doc);
}

} // verus!
