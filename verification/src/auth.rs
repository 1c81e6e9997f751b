//! Credential discovery: the client's process is looked up by name in a
//! snapshot of the process table, and the port and the token of its local
//! API are read from its launch arguments.

use crate::encoding::{
    base64_decode, base64_encode, base64_standard, is_base64_char, lemma_base64_round_trip,
    lemma_base64_shape,
};
use crate::error::ApiError;
use crate::text::{
    find, first_position, lemma_first_position_bounds, lemma_first_position_is,
    lemma_without_leading_is_suffix, same_text, strip_leading, without_leading,
};
use vstd::prelude::*;
use vstd::utf8::{
    decode_utf8, encode_utf8, encode_utf8_decode_utf8, encode_utf8_valid_utf8, valid_utf8,
};

verus! {

/// The launch argument that names the port of the client's API.
pub const PORT_ARG_NAME: &'static str = "app-port";

/// The launch argument that holds the token of the client's API.
pub const KEY_ARG_NAME: &'static str = "remoting-auth-token";

/// The name of the client's process on Windows.
pub const WINDOWS_PROC_NAME: &'static str = "LeagueClientUx.exe";

/// The name of the client's process on macOS.
pub const MACOS_PROC_NAME: &'static str = "LeagueClientUx";

/// A platform on which the client runs.
#[derive(Debug, Clone, Copy, PartialEq, Eq, Structural)]
pub enum Os {
    Windows,
    Macos,
}

impl Os {
    /// The platform that the target name `target_os` stands for, if the
    /// client runs on it.
    pub open spec fn named(target_os: Seq<char>) -> Option<Os> {
        if target_os == "windows"@ {
            Some(Os::Windows)
        } else if target_os == "macos"@ {
            Some(Os::Macos)
        } else {
            None
        }
    }

    /// The platform that the target name `target_os` stands for, if the
    /// client runs on it.
    pub fn get_os(target_os: &str) -> (os: Option<Os>)
        ensures
            os == Os::named(target_os@),
    {
        if same_text(target_os, "windows") {
            Some(Os::Windows)
        } else if same_text(target_os, "macos") {
            Some(Os::Macos)
        } else {
            None
        }
    }

    /// The name of the client's process on this platform.
    pub open spec fn proc_name(self) -> Seq<char> {
        match self {
            Os::Macos => MACOS_PROC_NAME@,
            Os::Windows => WINDOWS_PROC_NAME@,
        }
    }

    /// The name of the client's process on this platform.
    pub fn get_proc_name(&self) -> (name: &'static str)
        ensures
            name@ == self.proc_name(),
    {
        match self {
            Os::Macos => MACOS_PROC_NAME,
            Os::Windows => WINDOWS_PROC_NAME,
        }
    }
}

/// A running process, as the process table shows it.
#[derive(Debug, PartialEq, Eq)]
pub struct Process {
    pub name: String,
    pub cmd: Vec<String>,
}

/// What a `Process` holds, as mathematical values.
pub ghost struct ProcessView {
    pub name: Seq<char>,
    pub cmd: Seq<Seq<char>>,
}

impl View for Process {
    type V = ProcessView;

    open spec fn view(&self) -> ProcessView {
        ProcessView { name: self.name@, cmd: self.cmd.deep_view() }
    }
}

impl DeepView for Process {
    type V = ProcessView;

    open spec fn deep_view(&self) -> ProcessView {
        self@
    }
}

/// The map that a list of entries stands for: a later entry replaces an
/// earlier one with the same key.
pub open spec fn entries_map(entries: Seq<(Seq<char>, Seq<char>)>) -> Map<Seq<char>, Seq<char>>
    decreases entries.len(),
{
    if entries.len() == 0 {
        Map::empty()
    } else {
        entries_map(entries.drop_last()).insert(entries.last().0, entries.last().1)
    }
}

/// The entry at `at` decides what `key` maps to if no later entry has that key.
pub proof fn lemma_entries_map_last_wins(
    entries: Seq<(Seq<char>, Seq<char>)>,
    key: Seq<char>,
    at: int,
)
    requires
        0 <= at < entries.len(),
        entries[at].0 == key,
        forall|j: int| at < j < entries.len() ==> entries[j].0 != key,
    ensures
        entries_map(entries).contains_key(key),
        entries_map(entries)[key] == entries[at].1,
    decreases entries.len(),
{
    if at < entries.len() - 1 {
        lemma_entries_map_last_wins(entries.drop_last(), key, at);
    }
}

/// A key that no entry has is not in the map.
pub proof fn lemma_entries_map_absent(entries: Seq<(Seq<char>, Seq<char>)>, key: Seq<char>)
    requires
        forall|j: int| 0 <= j < entries.len() ==> entries[j].0 != key,
    ensures
        !entries_map(entries).contains_key(key),
    decreases entries.len(),
{
    if entries.len() > 0 {
        lemma_entries_map_absent(entries.drop_last(), key);
    }
}

/// The launch arguments of a process as a map from key to value.
#[derive(Debug)]
pub struct CmdArgs {
    entries: Vec<(String, String)>,
}

impl View for CmdArgs {
    type V = Map<Seq<char>, Seq<char>>;

    closed spec fn view(&self) -> Map<Seq<char>, Seq<char>> {
        entries_map(self.entries.deep_view())
    }
}

impl CmdArgs {
    /// The map without any key.
    pub fn new() -> (args: CmdArgs)
        ensures
            args@ == Map::<Seq<char>, Seq<char>>::empty(),
    {
        CmdArgs { entries: Vec::new() }
    }

    /// Maps `key` to `value`, in place of what it mapped to before.
    pub fn insert(&mut self, key: String, value: String)
        ensures
            final(self)@ == old(self)@.insert(key@, value@),
    {
        let ghost before = self.entries.deep_view();
        self.entries.push((key, value));
        assert(self.entries.deep_view().drop_last() =~= before);
    }

    /// What `key` maps to, if anything.
    pub fn get(&self, key: &str) -> (value: Option<&str>)
        ensures
            match value {
                Some(text) => self@.contains_key(key@) && self@[key@] == text@,
                None => !self@.contains_key(key@),
            },
    {
        let mut i: usize = self.entries.len();
        while i > 0
            invariant
                i <= self.entries.len(),
                forall|j: int| i <= j < self.entries.len() ==> self.entries@[j].0@ != key@,
            decreases i,
        {
            i -= 1;
            if same_text(self.entries[i].0.as_str(), key) {
                proof {
                    lemma_entries_map_last_wins(self.entries.deep_view(), key@, i as int);
                }
                return Some(self.entries[i].1.as_str());
            }
        }
        proof {
            lemma_entries_map_absent(self.entries.deep_view(), key@);
        }
        None
    }
}

/// The key of a launch argument that holds `=`: what stands between the
/// leading dashes and the first `=`.
pub open spec fn arg_key(arg: Seq<char>) -> Seq<char> {
    let bare = without_leading(arg, '-');
    bare.take(first_position(bare, '=') as int)
}

/// The value of a launch argument that holds `=`: what stands between the
/// first `=` and the second, or the end.
pub open spec fn arg_value(arg: Seq<char>) -> Seq<char> {
    let bare = without_leading(arg, '-');
    let rest = bare.skip(first_position(bare, '=') as int + 1);
    rest.take(first_position(rest, '=') as int)
}

/// The map that the launch arguments `args` stand for: each argument that
/// holds `=` maps its key to its value, a later one replacing an earlier one;
/// the others are passed over.
pub open spec fn parsed(args: Seq<Seq<char>>) -> Map<Seq<char>, Seq<char>>
    decreases args.len(),
{
    if args.len() == 0 {
        Map::empty()
    } else if args.last().contains('=') {
        parsed(args.drop_last()).insert(arg_key(args.last()), arg_value(args.last()))
    } else {
        parsed(args.drop_last())
    }
}

/// The key and the value of the launch argument `arg`, if it holds `=`.
fn split_arg(arg: &str) -> (pair: Option<(String, String)>)
    ensures
        match pair {
            Some((key, value)) => arg@.contains('=') && key@ == arg_key(arg@) && value@
                == arg_value(arg@),
            None => !arg@.contains('='),
        },
{
    let bare = strip_leading(arg, '-');
    let length = bare.unicode_len();
    let cut = find(bare, '=');
    proof {
        lemma_first_position_bounds(bare@, '=');
        let k = lemma_without_leading_is_suffix(arg@, '-');
        if arg@.contains('=') {
            let i = choose|i: int| 0 <= i < arg@.len() && arg@[i] == '=';
            assert(bare@[i - k] == '=');
        }
    }
    if cut == length {
        return None;
    }
    let key = bare.substring_char(0, cut);
    let rest = bare.substring_char(cut + 1, length);
    let end = find(rest, '=');
    let value = rest.substring_char(0, end);
    Some((key.to_owned(), value.to_owned()))
}

/// The port and the token of the client's local API.
#[derive(Debug)]
pub struct Auth {
    port: String,
    key: String,
}

/// What an `Auth` holds, as mathematical values.
pub ghost struct AuthView {
    pub port: Seq<char>,
    pub key: Seq<char>,
}

impl View for Auth {
    type V = AuthView;

    closed spec fn view(&self) -> AuthView {
        AuthView { port: self.port@, key: self.key@ }
    }
}

/// What discovery finds in the process table `processes` on the platform
/// `os`: the credentials of the first process that bears the client's name.
pub open spec fn discovered(os: Os, processes: Seq<ProcessView>) -> Result<AuthView, ApiError> {
    let names = processes.map_values(|process: ProcessView| process.name);
    let at = first_position(names, os.proc_name()) as int;
    if at >= processes.len() {
        Err(ApiError::NotRunning)
    } else {
        let args = parsed(processes[at].cmd);
        if !args.contains_key(PORT_ARG_NAME@) {
            Err(ApiError::MissingPort)
        } else if !args.contains_key(KEY_ARG_NAME@) {
            Err(ApiError::MissingKey)
        } else {
            Ok(AuthView { port: args[PORT_ARG_NAME@], key: args[KEY_ARG_NAME@] })
        }
    }
}

/// The credentials that open the client's API with the token `key`: the
/// user `riot`, a colon, and the token as password.
pub open spec fn credentials(key: Seq<char>) -> Seq<char> {
    "riot:"@ + key
}

/// The value of the `Authorization` header for the token `key`: the scheme
/// `Basic`, then the Base64 form of the credentials in UTF-8.
pub open spec fn basic_auth(key: Seq<char>) -> Seq<char> {
    "Basic "@ + base64_encode(encode_utf8(credentials(key)))
}

/// The credentials that a `Basic` authorization header carries, if it is one
/// and its payload is Base64 of UTF-8 text.
pub open spec fn credentials_of(header: Seq<char>) -> Option<Seq<char>> {
    if header.len() >= 6 && header.take(6) == "Basic "@ {
        match base64_decode(header.skip(6)) {
            Some(bytes) => if valid_utf8(bytes) {
                Some(decode_utf8(bytes))
            } else {
                None
            },
            None => None,
        }
    } else {
        None
    }
}

/// Decoding the authorization header built for a token gives back the user
/// `riot` and that token.
pub proof fn lemma_basic_auth_round_trip(key: Seq<char>)
    ensures
        credentials_of(basic_auth(key)) == Some(credentials(key)),
        credentials_of(basic_auth(key)) == Some("riot:"@ + key),
{
    reveal_strlit("Basic ");
    let plain = credentials(key);
    let bytes = encode_utf8(plain);
    let header = basic_auth(key);
    assert(header.take(6) =~= "Basic "@);
    assert(header.skip(6) =~= base64_encode(bytes));
    lemma_base64_round_trip(bytes);
    encode_utf8_valid_utf8(plain);
    encode_utf8_decode_utf8(plain);
}

/// The authorization header built for any token holds visible ASCII
/// characters only, so it is a legal header value whatever the token.
pub proof fn lemma_basic_auth_is_visible_ascii(key: Seq<char>)
    ensures
        forall|i: int|
            0 <= i < basic_auth(key).len() ==> 32 <= (#[trigger] basic_auth(key)[i]) as u32 <= 126,
{
    reveal_strlit("Basic ");
    lemma_base64_shape(encode_utf8(credentials(key)));
}

impl Auth {
    /// Looks the client up in `processes` and reads its credentials.
    pub fn new(os: Os, processes: &Vec<Process>) -> (auth: Result<Auth, ApiError>)
        ensures
            match auth {
                Ok(found) => discovered(os, processes.deep_view()) == Ok::<AuthView, ApiError>(
                    found@,
                ),
                Err(error) => discovered(os, processes.deep_view()) == Err::<AuthView, ApiError>(
                    error,
                ),
            },
    {
        let proc_name = os.get_proc_name();
        let ghost names = processes.deep_view().map_values(|process: ProcessView| process.name);
        let mut at: usize = 0;
        while at < processes.len() && !same_text(proc_name, processes[at].name.as_str())
            invariant
                at <= processes.len(),
                names == processes.deep_view().map_values(|process: ProcessView| process.name),
                proc_name@ == os.proc_name(),
                forall|i: int| 0 <= i < at ==> names[i] != proc_name@,
            decreases processes.len() - at,
        {
            at += 1;
        }
        proof {
            lemma_first_position_is(names, proc_name@, at as int);
        }
        if at == processes.len() {
            return Err(ApiError::NotRunning);
        }
        let args_map = Self::parse_cmd(processes[at].cmd.as_slice());
        let port = match args_map.get(PORT_ARG_NAME) {
            Some(text) => text.to_owned(),
            None => {
                return Err(ApiError::MissingPort);
            },
        };
        let key = match args_map.get(KEY_ARG_NAME) {
            Some(text) => text.to_owned(),
            None => {
                return Err(ApiError::MissingKey);
            },
        };
        Ok(Auth { port, key })
    }

    /// The value of the `Authorization` header that opens the client's API.
    pub fn basic_auth_token(&self) -> (token: String)
        ensures
            token@ == basic_auth(self@.key),
    {
        let mut plain = String::from_str("riot:");
        plain.append(self.key.as_str());
        let encoded = base64_standard(plain.as_str().as_bytes());
        String::from_str("Basic ").concat(encoded.as_str())
    }

    /// The port of the client's API.
    pub fn port(&self) -> (port: String)
        ensures
            port@ == self@.port,
    {
        self.port.clone()
    }

    /// Reads launch arguments of the form `--key=value` into a map.
    pub fn parse_cmd(args: &[String]) -> (map: CmdArgs)
        ensures
            map@ == parsed(args.deep_view()),
    {
        let mut map = CmdArgs::new();
        let mut i: usize = 0;
        while i < args.len()
            invariant
                i <= args.len(),
                map@ == parsed(args.deep_view().take(i as int)),
            decreases args.len() - i,
        {
            assert(args.deep_view().take(i + 1).drop_last() =~= args.deep_view().take(i as int));
            match split_arg(args[i].as_str()) {
                Some((key, value)) => {
                    map.insert(key, value);
                },
                None => {},
            }
            i += 1;
        }
        assert(args.deep_view().take(args.len() as int) =~= args.deep_view());
        map
    }
}

} // verus!
