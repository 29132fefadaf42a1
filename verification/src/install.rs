//! The installer flow's logic: input resolution, backend-server and
//! try-order validation, the version catalog's checks and ordering, and
//! the generated configuration and start-script texts.

use vstd::prelude::*;

use crate::text::{
    dec_rep, lemma_lex_trichotomy, lex_lt, push_char, spec_join, spec_parse_u32, spec_trim,
    split_csv, str_eq, str_lex_lt, trim_str, u64_to_string,
};

verus! {

/// One release of the proxy, as the version catalog lists it.
#[derive(Clone, Debug)]
pub struct VersionInfo {
    pub version: String,
    pub kind: String,
    pub url: String,
    pub sha256: String,
}

impl View for VersionInfo {
    type V = (Seq<char>, Seq<char>, Seq<char>, Seq<char>);

    open spec fn view(&self) -> (Seq<char>, Seq<char>, Seq<char>, Seq<char>) {
        (self.version@, self.kind@, self.url@, self.sha256@)
    }
}

impl DeepView for VersionInfo {
    type V = (Seq<char>, Seq<char>, Seq<char>, Seq<char>);

    open spec fn deep_view(&self) -> (Seq<char>, Seq<char>, Seq<char>, Seq<char>) {
        self.view()
    }
}

impl VersionInfo {
    /// The menu label of one release: its version, then its kind in
    /// parentheses.
    pub fn display_label(&self) -> (r: String)
        ensures
            r@ == self.version@ + " ("@ + self.kind@ + ")"@,
    {
        let mut out = self.version.clone();
        out.append(" (");
        out.append(self.kind.as_str());
        out.append(")");
        out
    }
}

/// One backend server: a name and the address the proxy forwards to.
#[derive(Clone, Debug)]
pub struct BackendServer {
    pub name: String,
    pub address: String,
}

impl View for BackendServer {
    type V = (Seq<char>, Seq<char>);

    open spec fn view(&self) -> (Seq<char>, Seq<char>) {
        (self.name@, self.address@)
    }
}

impl DeepView for BackendServer {
    type V = (Seq<char>, Seq<char>);

    open spec fn deep_view(&self) -> (Seq<char>, Seq<char>) {
        self.view()
    }
}

/// Resolves a prompted line against the prompt's default: blank input
/// means the default, anything else is the entry without its surrounding
/// white space.
pub fn prompt_with_default(input: &str, default: &str) -> (r: String)
    ensures
        r@ == if spec_trim(input@).len() == 0 {
            default@
        } else {
            spec_trim(input@)
        },
{
    let trimmed = trim_str(input);
    if trimmed.as_str().unicode_len() == 0 {
        default.to_owned()
    } else {
        trimmed
    }
}

/// Resolves the two memory prompts against their documented defaults.
pub fn prompt_memory(xms_input: &str, xmx_input: &str) -> (r: (String, String))
    ensures
        r.0@ == if spec_trim(xms_input@).len() == 0 {
            "256M"@
        } else {
            spec_trim(xms_input@)
        },
        r.1@ == if spec_trim(xmx_input@).len() == 0 {
            "512M"@
        } else {
            spec_trim(xmx_input@)
        },
{
    (prompt_with_default(xms_input, "256M"), prompt_with_default(xmx_input, "512M"))
}

/// Resolves the configuration-path prompt against the conventional
/// default path the caller supplies.
pub fn prompt_config_path(input: &str, default: &str) -> (r: String)
    ensures
        r@ == if spec_trim(input@).len() == 0 {
            default@
        } else {
            spec_trim(input@)
        },
{
    prompt_with_default(input, default)
}

/// A numeric prompt's entry: blank input takes the default, otherwise the
/// entry must parse as a non-negative integer, else the prompt repeats.
pub open spec fn spec_u32_entry(s: Seq<char>, default: u32) -> Option<u32> {
    if spec_trim(s).len() == 0 {
        Some(default)
    } else {
        spec_parse_u32(spec_trim(s))
    }
}

/// Parses the displayed-player-cap entry; `None` repeats the prompt.
pub fn parse_u32_entry(input: &str, default: u32) -> (r: Option<u32>)
    ensures
        r == spec_u32_entry(input@, default),
{
    let t = trim_str(input);
    if t.as_str().unicode_len() == 0 {
        Some(default)
    } else {
        crate::text::parse_u32(t.as_str())
    }
}

/// What a numbered-menu entry came to: a choice within the menu, an entry
/// that is not a number, or a number outside the menu; the last two repeat
/// the prompt with their own diagnostic.
#[derive(Clone, Copy, Debug, PartialEq, Eq, Structural)]
pub enum Selection {
    Chosen(u32),
    NotANumber,
    OutOfRange,
}

/// A numbered-menu entry: blank input takes the default, a parsed number
/// must lie inside the menu.
pub open spec fn spec_selection(s: Seq<char>, default: u32, min: u32, max: u32) -> Selection {
    let t = spec_trim(s);
    if t.len() == 0 {
        if min <= default <= max {
            Selection::Chosen(default)
        } else {
            Selection::OutOfRange
        }
    } else {
        match spec_parse_u32(t) {
            None => Selection::NotANumber,
            Some(v) => if min <= v <= max {
                Selection::Chosen(v)
            } else {
                Selection::OutOfRange
            },
        }
    }
}

/// Parses a numbered-menu entry against the menu's range and default.
pub fn parse_selection(input: &str, default: u32, min: u32, max: u32) -> (r: Selection)
    ensures
        r == spec_selection(input@, default, min, max),
{
    let t = trim_str(input);
    let value = if t.as_str().unicode_len() == 0 {
        Some(default)
    } else {
        match crate::text::parse_u32(t.as_str()) {
            None => {
                return Selection::NotANumber;
            },
            Some(v) => Some(v),
        }
    };
    match value {
        Some(v) => {
            if min <= v && v <= max {
                Selection::Chosen(v)
            } else {
                Selection::OutOfRange
            }
        },
        None => Selection::NotANumber,
    }
}

/// Whether the string holds a comma anywhere.
pub open spec fn has_comma(s: Seq<char>) -> bool {
    exists|i: int| 0 <= i < s.len() && s[i] == ','
}

fn contains_comma(s: &str) -> (r: bool)
    ensures
        r == has_comma(s@),
{
    let len = s.unicode_len();
    let mut i: usize = 0;
    while i < len
        invariant
            0 <= i <= len,
            len == s@.len(),
            forall|j: int| 0 <= j < i ==> s@[j] != ',',
        decreases len - i,
    {
        if s.get_char(i) == ',' {
            return true;
        }
        i = i + 1;
    }
    false
}

/// Why the installer rejected a backend-server entry; each one repeats
/// the prompt.
#[derive(Clone, Copy, Debug, PartialEq, Eq, Structural)]
pub enum BackendEntryError {
    EmptyName,
    CommaInName,
    DuplicateName,
    EmptyAddress,
}

/// Whether one of the gathered servers already carries the name.
pub open spec fn spec_has_server_named(servers: Seq<(Seq<char>, Seq<char>)>, name: Seq<char>) -> bool {
    exists|i: int| 0 <= i < servers.len() && (#[trigger] servers[i]).0 == name
}

fn has_server_named(servers: &Vec<BackendServer>, name: &str) -> (r: bool)
    ensures
        r == spec_has_server_named(servers.deep_view(), name@),
{
    let ghost sv = servers.deep_view();
    let mut i: usize = 0;
    while i < servers.len()
        invariant
            0 <= i <= servers.len(),
            sv == servers.deep_view(),
            sv.len() == servers.len(),
            forall|j: int| 0 <= j < sv.len() ==> (#[trigger] sv[j]).0 == servers@[j].name@,
            forall|j: int| 0 <= j < i ==> (#[trigger] sv[j]).0 != name@,
        decreases servers.len() - i,
    {
        if str_eq(servers[i].name.as_str(), name) {
            proof {
                assert(sv[i as int].0 == name@);
            }
            return true;
        }
        i = i + 1;
    }
    false
}

/// Checks the name offered for a new backend server, before the address
/// is even asked for: it must be non-blank once trimmed, free of commas,
/// and not already gathered.
pub fn check_backend_name(servers: &Vec<BackendServer>, name: &str) -> (r: Result<
    (),
    BackendEntryError,
>)
    ensures
        ({
            if spec_trim(name@).len() == 0 {
                r == Err::<(), BackendEntryError>(BackendEntryError::EmptyName)
            } else if has_comma(name@) {
                r == Err::<(), BackendEntryError>(BackendEntryError::CommaInName)
            } else if spec_has_server_named(servers.deep_view(), name@) {
                r == Err::<(), BackendEntryError>(BackendEntryError::DuplicateName)
            } else {
                r is Ok
            }
        }),
{
    if crate::text::is_blank(name) {
        return Err(BackendEntryError::EmptyName);
    }
    if contains_comma(name) {
        return Err(BackendEntryError::CommaInName);
    }
    if has_server_named(servers, name) {
        return Err(BackendEntryError::DuplicateName);
    }
    Ok(())
}

/// Checks one backend-server entry gathered by the installer: the name
/// must be non-blank, free of commas and new; the address non-blank. On
/// success the entry is returned as given.
pub fn check_backend_entry(servers: &Vec<BackendServer>, name: &str, addr: &str) -> (r: Result<
    BackendServer,
    BackendEntryError,
>)
    ensures
        ({
            if spec_trim(name@).len() == 0 {
                r == Err::<BackendServer, BackendEntryError>(BackendEntryError::EmptyName)
            } else if has_comma(name@) {
                r == Err::<BackendServer, BackendEntryError>(BackendEntryError::CommaInName)
            } else if spec_has_server_named(servers.deep_view(), name@) {
                r == Err::<BackendServer, BackendEntryError>(BackendEntryError::DuplicateName)
            } else if spec_trim(addr@).len() == 0 {
                r == Err::<BackendServer, BackendEntryError>(BackendEntryError::EmptyAddress)
            } else {
                r is Ok && r->Ok_0@ == (name@, addr@)
            }
        }),
{
    if crate::text::is_blank(name) {
        return Err(BackendEntryError::EmptyName);
    }
    if contains_comma(name) {
        return Err(BackendEntryError::CommaInName);
    }
    if has_server_named(servers, name) {
        return Err(BackendEntryError::DuplicateName);
    }
    if crate::text::is_blank(addr) {
        return Err(BackendEntryError::EmptyAddress);
    }
    Ok(BackendServer { name: name.to_owned(), address: addr.to_owned() })
}

/// Whether the chosen forwarding mode makes the installer ask for a shared
/// secret. The guard tests the stored mode against `BUNGEGUARD` — not the
/// stored spelling `BUNGEEGUARD` — so only the modern mode ever asks.
pub fn forwarding_needs_secret(mode: &str) -> (r: bool)
    ensures
        r == (mode@ == "BUNGEGUARD"@ || mode@ == "MODERN"@),
{
    str_eq(mode, "BUNGEGUARD") || str_eq(mode, "MODERN")
}

/// Why the installer rejected a try-order entry; each one repeats the
/// prompt.
#[derive(Debug)]
pub enum TryOrderError {
    Empty,
    Duplicate,
    Unknown(Vec<String>),
}

/// The names of the gathered servers, in order.
pub fn backend_names(servers: &Vec<BackendServer>) -> (r: Vec<String>)
    ensures
        r.deep_view() == servers.deep_view().map_values(
            |s: (Seq<char>, Seq<char>)| s.0,
        ),
{
    let ghost sv = servers.deep_view();
    let mut out: Vec<String> = Vec::new();
    let mut i: usize = 0;
    while i < servers.len()
        invariant
            0 <= i <= servers.len(),
            sv == servers.deep_view(),
            sv.len() == servers.len(),
            forall|j: int| 0 <= j < sv.len() ==> #[trigger] sv[j] == (
                servers@[j].name@,
                servers@[j].address@,
            ),
            out.deep_view() == sv.take(i as int).map_values(|s: (Seq<char>, Seq<char>)| s.0),
        decreases servers.len() - i,
    {
        out.push(servers[i].name.clone());
        proof {
            assert(sv.take(i + 1).map_values(|s: (Seq<char>, Seq<char>)| s.0) == sv.take(
                i as int,
            ).map_values(|s: (Seq<char>, Seq<char>)| s.0).push(sv[i as int].0));
        }
        i = i + 1;
    }
    proof {
        assert(sv.take(sv.len() as int) == sv);
    }
    out
}

/// The entries of a list that occur more than once.
pub open spec fn has_duplicates(list: Seq<Seq<char>>) -> bool {
    exists|i: int, j: int| 0 <= i < j < list.len() && list[i] == list[j]
}

fn find_duplicate(list: &Vec<String>) -> (r: bool)
    ensures
        r == has_duplicates(list.deep_view()),
{
    let ghost lv = list.deep_view();
    let mut i: usize = 0;
    while i < list.len()
        invariant
            0 <= i <= list.len(),
            lv == list.deep_view(),
            lv.len() == list.len(),
            forall|x: int| 0 <= x < lv.len() ==> lv[x] == list@[x]@,
            forall|x: int, y: int| 0 <= x < y < lv.len() && x < i ==> lv[x] != lv[y],
        decreases list.len() - i,
    {
        let mut j: usize = i + 1;
        while j < list.len()
            invariant
                0 <= i < j <= list.len(),
                lv == list.deep_view(),
                lv.len() == list.len(),
                forall|x: int| 0 <= x < lv.len() ==> lv[x] == list@[x]@,
                forall|y: int| i < y < j ==> lv[i as int] != lv[y],
            decreases list.len() - j,
        {
            if str_eq(list[i].as_str(), list[j].as_str()) {
                proof {
                    assert(lv[i as int] == lv[j as int]);
                }
                return true;
            }
            j = j + 1;
        }
        i = i + 1;
    }
    false
}

/// Parses the installer's try-order entry: the comma-separated list must
/// be non-empty, free of duplicates, and name only gathered servers.
pub fn parse_install_try_order(input: &str, servers: &Vec<BackendServer>) -> (r: Result<
    Vec<String>,
    TryOrderError,
>)
    ensures
        ({
            let list = crate::text::spec_csv_entries(input@);
            let names = servers.deep_view().map_values(|s: (Seq<char>, Seq<char>)| s.0);
            if list.len() == 0 {
                r is Err && r->Err_0 is Empty
            } else if has_duplicates(list) {
                r is Err && r->Err_0 is Duplicate
            } else if crate::editors::spec_unknown_names(list, names).len() != 0 {
                r is Err && r->Err_0 is Unknown && r->Err_0->Unknown_0.deep_view()
                    == crate::editors::spec_unknown_names(list, names)
            } else {
                r is Ok && r->Ok_0.deep_view() == list
            }
        }),
{
    let list = split_csv(input);
    if list.len() == 0 {
        proof {
            assert(list.deep_view().len() == 0);
        }
        return Err(TryOrderError::Empty);
    }
    if find_duplicate(&list) {
        return Err(TryOrderError::Duplicate);
    }
    let names = backend_names(servers);
    let unknown = crate::editors::unknown_names(&list, &names);
    if unknown.len() > 0 {
        proof {
            assert(unknown.deep_view().len() > 0);
        }
        return Err(TryOrderError::Unknown(unknown));
    }
    proof {
        assert(unknown.deep_view().len() == 0);
    }
    Ok(list)
}

/// How one character is written inside a double-quoted generated value.
pub open spec fn escape_char(c: char) -> Seq<char> {
    if c == '\\' {
        seq!['\\', '\\']
    } else if c == '"' {
        seq!['\\', '"']
    } else if c == '\n' {
        seq!['\\', 'n']
    } else if c == '\r' {
        seq!['\\', 'r']
    } else {
        seq![c]
    }
}

/// The string as it is written inside a double-quoted generated value:
/// backslashes, quotes, and line breaks escaped.
pub open spec fn spec_escape(s: Seq<char>) -> Seq<char>
    decreases s.len(),
{
    if s.len() == 0 {
        Seq::empty()
    } else {
        escape_char(s[0]) + spec_escape(s.drop_first())
    }
}

/// Escapes a value for the generated configuration text.
pub fn escape_toml(value: &str) -> (r: String)
    ensures
        r@ == spec_escape(value@),
{
    let len = value.unicode_len();
    let mut out = String::new();
    let mut i: usize = 0;
    proof {
        assert(value@.skip(0) == value@);
        assert(Seq::<char>::empty() + spec_escape(value@) =~= spec_escape(value@));
    }
    while i < len
        invariant
            0 <= i <= len,
            len == value@.len(),
            out@ + spec_escape(value@.skip(i as int)) == spec_escape(value@),
        decreases len - i,
    {
        let c = value.get_char(i);
        proof {
            assert(value@.skip(i as int)[0] == value@[i as int]);
            assert(value@.skip(i as int).drop_first() == value@.skip(i + 1));
        }
        if c == '\\' {
            push_char(&mut out, '\\');
            push_char(&mut out, '\\');
        } else if c == '"' {
            push_char(&mut out, '\\');
            push_char(&mut out, '"');
        } else if c == '\n' {
            push_char(&mut out, '\\');
            push_char(&mut out, 'n');
        } else if c == '\r' {
            push_char(&mut out, '\\');
            push_char(&mut out, 'r');
        } else {
            push_char(&mut out, c);
        }
        i = i + 1;
    }
    proof {
        assert(value@.skip(len as int) == Seq::<char>::empty());
        assert(out@ + Seq::<char>::empty() == out@);
    }
    out
}

/// Everything the installer gathered for one fresh installation.
#[derive(Clone, Debug)]
pub struct InstallSettings {
    pub install_dir: String,
    pub version: VersionInfo,
    pub bind: String,
    pub motd: String,
    pub show_max_players: u32,
    pub online_mode: bool,
    pub force_key_authentication: bool,
    pub forwarding_mode: String,
    pub forwarding_secret: Option<String>,
    pub servers: Vec<BackendServer>,
    pub try_order: Vec<String>,
    pub xms: String,
    pub xmx: String,
}

/// The generated `[servers]` entries, one double-quoted line per server.
pub open spec fn server_cfg_lines(servers: Seq<(Seq<char>, Seq<char>)>) -> Seq<char>
    decreases servers.len(),
{
    if servers.len() == 0 {
        Seq::empty()
    } else {
        server_cfg_lines(servers.drop_last()) + "\""@ + spec_escape(servers.last().0) + "\" = \""@
            + spec_escape(servers.last().1) + "\"\n"@
    }
}

/// The generated elements of the `try` array, one indented line per name.
pub open spec fn try_cfg_lines(names: Seq<Seq<char>>) -> Seq<char>
    decreases names.len(),
{
    if names.len() == 0 {
        Seq::empty()
    } else {
        try_cfg_lines(names.drop_last()) + "    \""@ + spec_escape(names.last()) + "\",\n"@
    }
}

/// The whole generated configuration document, from the gathered values.
pub open spec fn spec_velocity_config(s: InstallSettings) -> Seq<char> {
    "# Config version. Do not change this\nconfig-version = \"2.7\"\n\n"@ + "bind = \""@
        + spec_escape(s.bind@) + "\"\nmotd = \""@ + spec_escape(s.motd@)
        + "\"\nshow-max-players = "@ + dec_rep(s.show_max_players as nat) + "\nonline-mode = "@
        + crate::diff::bool_str(s.online_mode) + "\nforce-key-authentication = "@
        + crate::diff::bool_str(s.force_key_authentication)
        + "\nprevent-client-proxy-connections = false\nplayer-info-forwarding-mode = \""@
        + s.forwarding_mode@
        + "\"\nforwarding-secret-file = \"forwarding.secret\"\nannounce-forge = false\nkick-existing-players = false\nping-passthrough = \"DISABLED\"\nsample-players-in-ping = false\nenable-player-address-logging = true\n\n[servers]\n"@
        + server_cfg_lines(s.servers.deep_view()) + "try = [\n"@ + try_cfg_lines(
        s.try_order.deep_view(),
    )
        + "]\n\n[advanced]\ncompression-threshold = 256\ncompression-level = -1\nlogin-ratelimit = 3000\nconnection-timeout = 5000\nread-timeout = 30000\nhaproxy-protocol = false\ntcp-fast-open = false\nbungee-plugin-message-channel = true\nshow-ping-requests = false\nfailover-on-unexpected-server-disconnect = true\nannounce-proxy-commands = true\nlog-command-executions = false\nlog-player-connections = true\naccepts-transfers = false\nenable-reuse-port = false\ncommand-rate-limit = 50\nforward-commands-if-rate-limited = true\nkick-after-rate-limited-commands = 0\ntab-complete-rate-limit = 10\nkick-after-rate-limited-tab-completes = 0\n\n[query]\nenabled = false\nport = 25565\nmap = \"Velocity\"\nshow-plugins = false\n"@
}

/// Builds the full configuration document a fresh installation writes.
pub fn build_velocity_config(settings: &InstallSettings) -> (r: String)
    ensures
        r@ == spec_velocity_config(*settings),
{
    let mut out = "# Config version. Do not change this\nconfig-version = \"2.7\"\n\n".to_owned();
    out.append("bind = \"");
    let piece = escape_toml(settings.bind.as_str());
    out.append(piece.as_str());
    out.append("\"\nmotd = \"");
    let piece = escape_toml(settings.motd.as_str());
    out.append(piece.as_str());
    out.append("\"\nshow-max-players = ");
    let piece = u64_to_string(settings.show_max_players as u64);
    out.append(piece.as_str());
    out.append("\nonline-mode = ");
    out.append(if settings.online_mode { "true" } else { "false" });
    out.append("\nforce-key-authentication = ");
    out.append(if settings.force_key_authentication { "true" } else { "false" });
    out.append("\nprevent-client-proxy-connections = false\nplayer-info-forwarding-mode = \"");
    out.append(settings.forwarding_mode.as_str());
    out.append(
        "\"\nforwarding-secret-file = \"forwarding.secret\"\nannounce-forge = false\nkick-existing-players = false\nping-passthrough = \"DISABLED\"\nsample-players-in-ping = false\nenable-player-address-logging = true\n\n[servers]\n",
    );
    let ghost sv = settings.servers.deep_view();
    let mut i: usize = 0;
    let ghost head = out@;
    while i < settings.servers.len()
        invariant
            0 <= i <= settings.servers.len(),
            sv == settings.servers.deep_view(),
            sv.len() == settings.servers.len(),
            forall|j: int| 0 <= j < sv.len() ==> #[trigger] sv[j] == (
                settings.servers@[j].name@,
                settings.servers@[j].address@,
            ),
            out@ == head + server_cfg_lines(sv.take(i as int)),
        decreases settings.servers.len() - i,
    {
        out.append("\"");
        let piece = escape_toml(settings.servers[i].name.as_str());
        out.append(piece.as_str());
        out.append("\" = \"");
        let piece = escape_toml(settings.servers[i].address.as_str());
        out.append(piece.as_str());
        out.append("\"\n");
        proof {
            assert(sv.take(i + 1).drop_last() == sv.take(i as int));
            assert(sv.take(i + 1).last() == sv[i as int]);
        }
        i = i + 1;
    }
    proof {
        assert(sv.take(sv.len() as int) == sv);
    }
    out.append("try = [\n");
    let ghost tv = settings.try_order.deep_view();
    let ghost head2 = out@;
    let mut i: usize = 0;
    while i < settings.try_order.len()
        invariant
            0 <= i <= settings.try_order.len(),
            tv == settings.try_order.deep_view(),
            tv.len() == settings.try_order.len(),
            forall|j: int| 0 <= j < tv.len() ==> tv[j] == settings.try_order@[j]@,
            out@ == head2 + try_cfg_lines(tv.take(i as int)),
        decreases settings.try_order.len() - i,
    {
        out.append("    \"");
        let piece = escape_toml(settings.try_order[i].as_str());
        out.append(piece.as_str());
        out.append("\",\n");
        proof {
            assert(tv.take(i + 1).drop_last() == tv.take(i as int));
            assert(tv.take(i + 1).last() == tv[i as int]);
        }
        i = i + 1;
    }
    proof {
        assert(tv.take(tv.len() as int) == tv);
    }
    out.append(
        "]\n\n[advanced]\ncompression-threshold = 256\ncompression-level = -1\nlogin-ratelimit = 3000\nconnection-timeout = 5000\nread-timeout = 30000\nhaproxy-protocol = false\ntcp-fast-open = false\nbungee-plugin-message-channel = true\nshow-ping-requests = false\nfailover-on-unexpected-server-disconnect = true\nannounce-proxy-commands = true\nlog-command-executions = false\nlog-player-connections = true\naccepts-transfers = false\nenable-reuse-port = false\ncommand-rate-limit = 50\nforward-commands-if-rate-limited = true\nkick-after-rate-limited-commands = 0\ntab-complete-rate-limit = 10\nkick-after-rate-limited-tab-completes = 0\n\n[query]\nenabled = false\nport = 25565\nmap = \"Velocity\"\nshow-plugins = false\n",
    );
    out
}

/// The launch script for POSIX shells.
pub open spec fn spec_start_sh(xms: Seq<char>, xmx: Seq<char>) -> Seq<char> {
    "#!/usr/bin/env sh\nset -e\nDIR=\"$(cd \"$(dirname \"$0\")\" && pwd)\"\nexec java -Xms"@ + xms
        + " -Xmx"@ + xmx + " -jar \"$DIR/velocity.jar\"\n"@
}

/// Renders the POSIX launch script.
pub fn start_sh_contents(xms: &str, xmx: &str) -> (r: String)
    ensures
        r@ == spec_start_sh(xms@, xmx@),
{
    let mut out =
        "#!/usr/bin/env sh\nset -e\nDIR=\"$(cd \"$(dirname \"$0\")\" && pwd)\"\nexec java -Xms".to_owned();
    out.append(xms);
    out.append(" -Xmx");
    out.append(xmx);
    out.append(" -jar \"$DIR/velocity.jar\"\n");
    out
}

/// The launch script for Windows command shells.
pub open spec fn spec_start_bat(xms: Seq<char>, xmx: Seq<char>) -> Seq<char> {
    "@echo off\r\nset DIR=%~dp0\r\njava -Xms"@ + xms + " -Xmx"@ + xmx
        + " -jar \"%DIR%velocity.jar\"\r\n"@
}

/// Renders the Windows launch script.
pub fn start_bat_contents(xms: &str, xmx: &str) -> (r: String)
    ensures
        r@ == spec_start_bat(xms@, xmx@),
{
    let mut out = "@echo off\r\nset DIR=%~dp0\r\njava -Xms".to_owned();
    out.append(xms);
    out.append(" -Xmx");
    out.append(xmx);
    out.append(" -jar \"%DIR%velocity.jar\"\r\n");
    out
}

/// The summary lines listing the gathered backend servers.
pub open spec fn summary_server_lines(servers: Seq<(Seq<char>, Seq<char>)>) -> Seq<Seq<char>>
    decreases servers.len(),
{
    if servers.len() == 0 {
        Seq::empty()
    } else {
        summary_server_lines(servers.drop_last()).push(
            "  - "@ + servers.last().0 + " = "@ + servers.last().1,
        )
    }
}

/// The settings summary shown before the installation runs, line by line.
pub open spec fn spec_render_summary(s: InstallSettings) -> Seq<Seq<char>> {
    seq![
        "- インストール先: "@ + s.install_dir@,
        "- バージョン: "@ + s.version.version@ + " ("@ + s.version.kind@ + ")"@,
        "- bind: "@ + s.bind@,
        "- MOTD: "@ + s.motd@,
        "- プレイヤー数表示: "@ + dec_rep(s.show_max_players as nat),
        "- オンラインモード: "@ + (if s.online_mode { "有効"@ } else { "無効"@ }),
        "- 鍵認証強制: "@ + (if s.force_key_authentication { "有効"@ } else { "無効"@ }),
        "- 転送モード: "@ + crate::text::lower_seq(s.forwarding_mode@),
        "- 共有シークレット: "@ + (if s.forwarding_secret is Some { "設定済み"@ } else { "なし"@ }),
        "- バックエンドサーバ:"@,
    ] + summary_server_lines(s.servers.deep_view()) + seq![
        "- 接続順序: "@ + spec_join(s.try_order.deep_view(), ", "@),
        "- 起動メモリ: Xms="@ + s.xms@ + " / Xmx="@ + s.xmx@,
    ]
}

/// Renders the settings summary shown before the installation runs.
pub fn render_summary(settings: &InstallSettings) -> (r: Vec<String>)
    ensures
        r.deep_view() == spec_render_summary(*settings),
{
    let mut out: Vec<String> = Vec::new();
    let mut line = "- インストール先: ".to_owned();
    line.append(settings.install_dir.as_str());
    out.push(line);
    let mut line = "- バージョン: ".to_owned();
    let label = settings.version.display_label();
    line.append(label.as_str());
    out.push(line);
    let mut line = "- bind: ".to_owned();
    line.append(settings.bind.as_str());
    out.push(line);
    let mut line = "- MOTD: ".to_owned();
    line.append(settings.motd.as_str());
    out.push(line);
    let mut line = "- プレイヤー数表示: ".to_owned();
    let cap = u64_to_string(settings.show_max_players as u64);
    line.append(cap.as_str());
    out.push(line);
    let mut line = "- オンラインモード: ".to_owned();
    line.append(if settings.online_mode { "有効" } else { "無効" });
    out.push(line);
    let mut line = "- 鍵認証強制: ".to_owned();
    line.append(if settings.force_key_authentication { "有効" } else { "無効" });
    out.push(line);
    let mut line = "- 転送モード: ".to_owned();
    let lowered = crate::text::ascii_lower(settings.forwarding_mode.as_str());
    line.append(lowered.as_str());
    out.push(line);
    let mut line = "- 共有シークレット: ".to_owned();
    line.append(if settings.forwarding_secret.is_some() { "設定済み" } else { "なし" });
    out.push(line);
    out.push("- バックエンドサーバ:".to_owned());
    let ghost fixed = out.deep_view();
    proof {
        assert(fixed.len() == 10);
        assert(fixed[1] =~= "- バージョン: "@ + settings.version.version@ + " ("@
            + settings.version.kind@ + ")"@);
        assert(fixed =~= seq![
            "- インストール先: "@ + settings.install_dir@,
            "- バージョン: "@ + settings.version.version@ + " ("@ + settings.version.kind@ + ")"@,
            "- bind: "@ + settings.bind@,
            "- MOTD: "@ + settings.motd@,
            "- プレイヤー数表示: "@ + dec_rep(settings.show_max_players as nat),
            "- オンラインモード: "@ + (if settings.online_mode { "有効"@ } else { "無効"@ }),
            "- 鍵認証強制: "@ + (if settings.force_key_authentication { "有効"@ } else { "無効"@ }),
            "- 転送モード: "@ + crate::text::lower_seq(settings.forwarding_mode@),
            "- 共有シークレット: "@ + (if settings.forwarding_secret is Some { "設定済み"@ } else { "なし"@ }),
            "- バックエンドサーバ:"@,
        ]);
    }
    let ghost sv = settings.servers.deep_view();
    let mut i: usize = 0;
    proof {
        assert(fixed + summary_server_lines(sv.take(0)) =~= fixed);
    }
    while i < settings.servers.len()
        invariant
            0 <= i <= settings.servers.len(),
            sv == settings.servers.deep_view(),
            sv.len() == settings.servers.len(),
            forall|j: int| 0 <= j < sv.len() ==> #[trigger] sv[j] == (
                settings.servers@[j].name@,
                settings.servers@[j].address@,
            ),
            out.deep_view() == fixed + summary_server_lines(sv.take(i as int)),
        decreases settings.servers.len() - i,
    {
        let mut line = "  - ".to_owned();
        line.append(settings.servers[i].name.as_str());
        line.append(" = ");
        line.append(settings.servers[i].address.as_str());
        let ghost lv = line@;
        out.push(line);
        proof {
            assert(sv.take(i + 1).drop_last() == sv.take(i as int));
            assert(sv.take(i + 1).last() == sv[i as int]);
            assert(out.deep_view() =~= (fixed + summary_server_lines(sv.take(i as int))).push(lv));
            assert(summary_server_lines(sv.take(i + 1)) == summary_server_lines(
                sv.take(i as int),
            ).push(lv));
            assert(out.deep_view() =~= fixed + summary_server_lines(sv.take(i + 1)));
        }
        i = i + 1;
    }
    proof {
        assert(sv.take(sv.len() as int) == sv);
    }
    let mut line = "- 接続順序: ".to_owned();
    let joined = crate::text::join_strings(&settings.try_order, ", ");
    line.append(joined.as_str());
    let ghost l11 = line@;
    out.push(line);
    proof {
        assert(out.deep_view() =~= (fixed + summary_server_lines(sv)).push(l11));
    }
    let mut line = "- 起動メモリ: Xms=".to_owned();
    line.append(settings.xms.as_str());
    line.append(" / Xmx=");
    line.append(settings.xmx.as_str());
    let ghost l12 = line@;
    out.push(line);
    proof {
        assert(out.deep_view() =~= (fixed + summary_server_lines(sv)).push(l11).push(l12));
        assert(l11 == "- 接続順序: "@ + spec_join(settings.try_order.deep_view(), ", "@));
        assert(l12 == "- 起動メモリ: Xms="@ + settings.xms@ + " / Xmx="@ + settings.xmx@);
        assert(out.deep_view() =~= spec_render_summary(*settings));
    }
    out
}

/// One release as the raw version catalog lists it, its checksum still
/// optional.
#[derive(Clone, Debug)]
pub struct VersionRow {
    pub version: String,
    pub url: String,
    pub kind: String,
    pub sha256: Option<String>,
}

impl View for VersionRow {
    type V = (Seq<char>, Seq<char>, Seq<char>, Option<Seq<char>>);

    open spec fn view(&self) -> (Seq<char>, Seq<char>, Seq<char>, Option<Seq<char>>) {
        (self.version@, self.url@, self.kind@, self.sha256.deep_view())
    }
}

impl DeepView for VersionRow {
    type V = (Seq<char>, Seq<char>, Seq<char>, Option<Seq<char>>);

    open spec fn deep_view(&self) -> (Seq<char>, Seq<char>, Seq<char>, Option<Seq<char>>) {
        self.view()
    }
}

/// Why the version catalog was rejected.
#[derive(Debug)]
pub enum VersionIndexError {
    Status(String),
    MissingSha256(String),
    Empty,
}

impl VersionIndexError {
    /// The operator-facing message for the rejected catalog.
    pub fn message(&self) -> (r: String)
        ensures
            ({
                match self {
                    VersionIndexError::Status(s) => r@ == "バージョン一覧の取得に失敗しました: status="@
                        + s@,
                    VersionIndexError::MissingSha256(v) => r@ == "sha256 が見つかりません: "@ + v@,
                    VersionIndexError::Empty => r@ == "バージョン一覧が空です。"@,
                }
            }),
    {
        match self {
            VersionIndexError::Status(s) => {
                let mut out = "バージョン一覧の取得に失敗しました: status=".to_owned();
                out.append(s.as_str());
                out
            },
            VersionIndexError::MissingSha256(v) => {
                let mut out = "sha256 が見つかりません: ".to_owned();
                out.append(v.as_str());
                out
            },
            VersionIndexError::Empty => "バージョン一覧が空です。".to_owned(),
        }
    }
}

/// The index of the first catalog row without a checksum, or a negative
/// number when every row carries one.
pub open spec fn first_missing_sha(
    rows: Seq<(Seq<char>, Seq<char>, Seq<char>, Option<Seq<char>>)>,
) -> int
    decreases rows.len(),
{
    if rows.len() == 0 {
        -1
    } else if rows[0].3 is None {
        0
    } else {
        let rest = first_missing_sha(rows.drop_first());
        if rest < 0 {
            -1
        } else {
            rest + 1
        }
    }
}

/// The catalog rows turned into releases, checksums unwrapped, order kept.
pub open spec fn rows_to_infos(
    rows: Seq<(Seq<char>, Seq<char>, Seq<char>, Option<Seq<char>>)>,
) -> Seq<(Seq<char>, Seq<char>, Seq<char>, Seq<char>)>
    decreases rows.len(),
{
    if rows.len() == 0 {
        Seq::empty()
    } else {
        rows_to_infos(rows.drop_last()).push(
            (rows.last().0, rows.last().2, rows.last().1, rows.last().3->0),
        )
    }
}

/// The releases are listed newest first: no version is lexicographically
/// below its successor.
pub open spec fn sorted_desc(v: Seq<(Seq<char>, Seq<char>, Seq<char>, Seq<char>)>) -> bool {
    forall|i: int| 0 <= i && i + 1 < v.len() ==> !lex_lt((#[trigger] v[i]).0, v[i + 1].0)
}

fn clone_version(v: &VersionInfo) -> (r: VersionInfo)
    ensures
        r.deep_view() == v.deep_view(),
{
    VersionInfo {
        version: v.version.clone(),
        kind: v.kind.clone(),
        url: v.url.clone(),
        sha256: v.sha256.clone(),
    }
}

fn sort_versions_desc(input: Vec<VersionInfo>) -> (r: Vec<VersionInfo>)
    ensures
        r.deep_view().to_multiset() == input.deep_view().to_multiset(),
        sorted_desc(r.deep_view()),
{
    let ghost iv = input.deep_view();
    let mut out: Vec<VersionInfo> = Vec::new();
    let mut i: usize = 0;
    proof {
        assert(out.deep_view() =~= Seq::<(Seq<char>, Seq<char>, Seq<char>, Seq<char>)>::empty());
        assert(iv.take(0) =~= Seq::<(Seq<char>, Seq<char>, Seq<char>, Seq<char>)>::empty());
    }
    while i < input.len()
        invariant
            0 <= i <= input.len(),
            iv == input.deep_view(),
            iv.len() == input.len(),
            forall|x: int| 0 <= x < iv.len() ==> #[trigger] iv[x] == input@[x].deep_view(),
            out.deep_view().to_multiset() == iv.take(i as int).to_multiset(),
            sorted_desc(out.deep_view()),
        decreases input.len() - i,
    {
        let ghost pre = out.deep_view();
        let x = clone_version(&input[i]);
        let ghost xd = iv[i as int];
        let ghost xe = x;
        proof {
            assert(x.deep_view() == iv[i as int]);
        }
        let mut pos: usize = 0;
        while pos < out.len() && !str_lex_lt(out[pos].version.as_str(), x.version.as_str())
            invariant
                0 <= pos <= out.len(),
                xd == x.deep_view(),
                pre == out.deep_view(),
                pre.len() == out.len(),
                forall|k: int| 0 <= k < pre.len() ==> #[trigger] pre[k] == out@[k].deep_view(),
                forall|k: int| 0 <= k < pos ==> !lex_lt((#[trigger] pre[k]).0, xd.0),
            decreases out.len() - pos,
        {
            pos = pos + 1;
        }
        let ghost hit_end = pos >= out.len();
        proof {
            if !hit_end {
                assert(lex_lt(pre[pos as int].0, xd.0));
            }
        }
        let ghost prev = out@;
        out.insert(pos, x);
        proof {
            assert(out@ == prev.insert(pos as int, xe));
            assert forall|k: int| 0 <= k < out.deep_view().len() implies #[trigger] out.deep_view()[k]
                == pre.insert(pos as int, xd)[k] by {
                pre.insert_ensures(pos as int, xd);
                prev.insert_ensures(pos as int, xe);
                assert(out.deep_view()[k] == out@[k].deep_view());
                if k < pos {
                    assert(out@[k] == prev[k]);
                } else if k == pos {
                    assert(out@[k] == xe);
                } else {
                    assert(out@[k] == prev[k - 1]);
                }
            }
            assert(out.deep_view().len() == pre.insert(pos as int, xd).len());
            assert(out.deep_view() =~= pre.insert(pos as int, xd));
            vstd::seq_lib::to_multiset_insert(pre, pos as int, xd);
            assert(iv.take(i + 1).drop_last() == iv.take(i as int));
            assert(iv.take(i + 1) == iv.take(i as int).push(iv[i as int]));
            vstd::seq_lib::to_multiset_build(iv.take(i as int), iv[i as int]);
            let nv = out.deep_view();
            pre.insert_ensures(pos as int, xd);
            assert forall|k: int| 0 <= k && k + 1 < nv.len() implies !lex_lt(
                (#[trigger] nv[k]).0,
                nv[k + 1].0,
            ) by {
                if k + 1 < pos {
                    assert(nv[k] == pre[k]);
                    assert(nv[k + 1] == pre[k + 1]);
                } else if k + 1 == pos {
                    assert(nv[k] == pre[k]);
                    assert(nv[k + 1] == xd);
                } else if k == pos {
                    assert(nv[k] == xd);
                    assert(nv[k + 1] == pre[k]);
                    if k < pre.len() && !hit_end {
                        lemma_lex_trichotomy(xd.0, pre[k].0);
                    }
                } else {
                    assert(nv[k] == pre[k - 1]);
                    assert(nv[k + 1] == pre[k]);
                }
            }
        }
        i = i + 1;
    }
    proof {
        assert(iv.take(iv.len() as int) == iv);
    }
    out
}

/// Checks the fetched version catalog and orders its releases: a status
/// other than `ok` is rejected; every release must carry a checksum (the
/// first one without ends the check); an empty catalog is rejected; the
/// accepted releases are listed newest version first.
pub fn build_version_list(status: &Option<String>, rows: &Vec<VersionRow>) -> (r: Result<
    Vec<VersionInfo>,
    VersionIndexError,
>)
    ensures
        ({
            let rv = rows.deep_view();
            match status.deep_view() {
                Some(st) if st != "ok"@ => r matches Err(VersionIndexError::Status(s)) && s@ == st,
                _ => {
                    if first_missing_sha(rv) >= 0 {
                        r matches Err(VersionIndexError::MissingSha256(v)) && v@ == rv[
                            first_missing_sha(rv)
                        ].0
                    } else if rv.len() == 0 {
                        r matches Err(VersionIndexError::Empty)
                    } else {
                        &&& r is Ok
                        &&& r->Ok_0.deep_view().to_multiset() == rows_to_infos(rv).to_multiset()
                        &&& sorted_desc(r->Ok_0.deep_view())
                    }
                },
            }
        }),
{
    if let Some(st) = status {
        if !str_eq(st.as_str(), "ok") {
            return Err(VersionIndexError::Status(st.clone()));
        }
    }
    let ghost rv = rows.deep_view();
    let mut infos: Vec<VersionInfo> = Vec::new();
    let mut i: usize = 0;
    proof {
        assert(rv.take(0) =~= Seq::<(Seq<char>, Seq<char>, Seq<char>, Option<Seq<char>>)>::empty());
        assert(infos.deep_view() =~= rows_to_infos(rv.take(0)));
    }
    while i < rows.len()
        invariant
            0 <= i <= rows.len(),
            rv == rows.deep_view(),
            rv.len() == rows.len(),
            forall|j: int| 0 <= j < rv.len() ==> #[trigger] rv[j] == (
                rows@[j].version@,
                rows@[j].url@,
                rows@[j].kind@,
                rows@[j].sha256.deep_view(),
            ),
            forall|j: int| 0 <= j < i ==> (#[trigger] rv[j]).3 is Some,
            infos.deep_view() == rows_to_infos(rv.take(i as int)),
            !(status.deep_view() matches Some(st) && st != "ok"@),
        decreases rows.len() - i,
    {
        proof {
            assert(rv.take(i + 1).drop_last() == rv.take(i as int));
            assert(rv.take(i + 1).last() == rv[i as int]);
        }
        match &rows[i].sha256 {
            None => {
                proof {
                    lemma_first_missing(rv, i as int);
                }
                return Err(VersionIndexError::MissingSha256(rows[i].version.clone()));
            },
            Some(sha) => {
                let info = VersionInfo {
                    version: rows[i].version.clone(),
                    kind: rows[i].kind.clone(),
                    url: rows[i].url.clone(),
                    sha256: sha.clone(),
                };
                infos.push(info);
                proof {
                    assert(infos.deep_view() =~= rows_to_infos(rv.take(i + 1)));
                }
            },
        }
        i = i + 1;
    }
    proof {
        assert(rv.take(rv.len() as int) == rv);
        lemma_no_missing(rv);
    }
    if infos.len() == 0 {
        proof {
            assert(rows_to_infos(rv).len() == rv.len()) by {
                lemma_rows_to_infos_len(rv);
            }
        }
        return Err(VersionIndexError::Empty);
    }
    proof {
        assert(rows_to_infos(rv).len() == rv.len()) by {
            lemma_rows_to_infos_len(rv);
        }
    }
    Ok(sort_versions_desc(infos))
}

proof fn lemma_rows_to_infos_len(rows: Seq<(Seq<char>, Seq<char>, Seq<char>, Option<Seq<char>>)>)
    ensures
        rows_to_infos(rows).len() == rows.len(),
    decreases rows.len(),
{
    if rows.len() > 0 {
        lemma_rows_to_infos_len(rows.drop_last());
    }
}

proof fn lemma_first_missing(
    rows: Seq<(Seq<char>, Seq<char>, Seq<char>, Option<Seq<char>>)>,
    i: int,
)
    requires
        0 <= i < rows.len(),
        rows[i].3 is None,
        forall|j: int| 0 <= j < i ==> (#[trigger] rows[j]).3 is Some,
    ensures
        first_missing_sha(rows) == i,
    decreases i,
{
    if i == 0 {
    } else {
        assert(rows[0].3 is Some);
        lemma_first_missing(rows.drop_first(), i - 1);
    }
}

proof fn lemma_no_missing(rows: Seq<(Seq<char>, Seq<char>, Seq<char>, Option<Seq<char>>)>)
    requires
        forall|j: int| 0 <= j < rows.len() ==> (#[trigger] rows[j]).3 is Some,
    ensures
        first_missing_sha(rows) < 0,
    decreases rows.len(),
{
    if rows.len() > 0 {
        lemma_no_missing(rows.drop_first());
    }
}

} // verus!
