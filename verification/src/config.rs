//! Settings of the node, out of environment variables.
use vstd::prelude::*;
use vstd::string::*;
use crate::number::{parse_unsigned, unsigned_value};
use crate::text::{lowered, split, split_all, text_eq, texts, to_lower, trim, trimmed};

verus! {

/// The settings of a node.
#[derive(Clone, Debug, PartialEq, Eq)]
pub struct Settings {
    pub service_host: String,
    pub service_port: u16,
    pub xray_api_host: String,
    pub xray_api_port: u16,
    pub xray_executable_path: String,
    pub xray_assets_path: String,
    pub sing_box_executable_path: String,
    pub ssl_cert_file: String,
    pub ssl_key_file: String,
    pub ssl_client_cert_file: Option<String>,
    pub debug: bool,
    pub inbounds: Vec<String>,
}

/// What the settings say.
#[verifier::ext_equal]
pub struct SettingsView {
    pub service_host: Seq<char>,
    pub service_port: u16,
    pub xray_api_host: Seq<char>,
    pub xray_api_port: u16,
    pub xray_executable_path: Seq<char>,
    pub xray_assets_path: Seq<char>,
    pub sing_box_executable_path: Seq<char>,
    pub ssl_cert_file: Seq<char>,
    pub ssl_key_file: Seq<char>,
    pub ssl_client_cert_file: Option<Seq<char>>,
    pub debug: bool,
    pub inbounds: Seq<Seq<char>>,
}

/// The view of a text that may be missing.
pub open spec fn opt_text(text: Option<String>) -> Option<Seq<char>> {
    match text {
        Some(s) => Some(s@),
        None => None,
    }
}

impl View for Settings {
    type V = SettingsView;

    open spec fn view(&self) -> SettingsView {
        SettingsView {
            service_host: self.service_host@,
            service_port: self.service_port,
            xray_api_host: self.xray_api_host@,
            xray_api_port: self.xray_api_port,
            xray_executable_path: self.xray_executable_path@,
            xray_assets_path: self.xray_assets_path@,
            sing_box_executable_path: self.sing_box_executable_path@,
            ssl_cert_file: self.ssl_cert_file@,
            ssl_key_file: self.ssl_key_file@,
            ssl_client_cert_file: opt_text(self.ssl_client_cert_file),
            debug: self.debug,
            inbounds: texts(self.inbounds@),
        }
    }
}

/// The value of a variable; the first of that name counts.
pub open spec fn var_view(vars: Seq<(String, String)>, key: Seq<char>) -> Option<Seq<char>>
    decreases vars.len(),
{
    if vars.len() == 0 {
        None
    } else if vars[0].0@ == key {
        Some(vars[0].1@)
    } else {
        var_view(vars.drop_first(), key)
    }
}

/// The text of a variable, or a default.
pub open spec fn string_view(
    vars: Seq<(String, String)>,
    key: Seq<char>,
    default: Seq<char>,
) -> Seq<char> {
    match var_view(vars, key) {
        Some(value) => value,
        None => default,
    }
}

/// The number of a variable, or a default where it is none of 16 bits.
pub open spec fn u16_view(vars: Seq<(String, String)>, key: Seq<char>, default: u16) -> u16 {
    match var_view(vars, key) {
        Some(value) => match unsigned_value(value, u16::MAX as nat) {
            Some(n) => n as u16,
            None => default,
        },
        None => default,
    }
}

/// What a text says as a switch, in any case of letters.
pub open spec fn switch_view(value: Seq<char>) -> Option<bool> {
    let word = lowered(value);
    if word == "1"@ || word == "true"@ || word == "yes"@ || word == "on"@ {
        Some(true)
    } else if word == "0"@ || word == "false"@ || word == "no"@ || word == "off"@ {
        Some(false)
    } else {
        None
    }
}

/// The switch of a variable, or a default where it is none.
pub open spec fn bool_view(vars: Seq<(String, String)>, key: Seq<char>, default: bool) -> bool {
    match var_view(vars, key) {
        Some(value) => match switch_view(value) {
            Some(switch) => switch,
            None => default,
        },
        None => default,
    }
}

/// The tags of a comma-separated list: trimmed, without the empty ones.
pub open spec fn tags_view(list: Seq<char>) -> Seq<Seq<char>> {
    split_all(list, ',').filter_map(
        |piece: Seq<char>|
            if trimmed(piece).len() > 0 {
                Some(trimmed(piece))
            } else {
                None
            },
    )
}

/// The settings that the environment variables give.
pub open spec fn settings_view(vars: Seq<(String, String)>) -> SettingsView {
    SettingsView {
        service_host: string_view(vars, "SERVICE_HOST"@, "0.0.0.0"@),
        service_port: u16_view(vars, "SERVICE_PORT"@, 62050),
        xray_api_host: string_view(vars, "XRAY_API_HOST"@, "0.0.0.0"@),
        xray_api_port: u16_view(vars, "XRAY_API_PORT"@, 62051),
        xray_executable_path: string_view(vars, "XRAY_EXECUTABLE_PATH"@, "/usr/local/bin/xray"@),
        xray_assets_path: string_view(vars, "XRAY_ASSETS_PATH"@, "/usr/local/share/xray"@),
        sing_box_executable_path: string_view(
            vars,
            "SING_BOX_EXECUTABLE_PATH"@,
            "/usr/local/bin/sing-box"@,
        ),
        ssl_cert_file: string_view(
            vars,
            "SSL_CERT_FILE"@,
            "/var/lib/marzban-node/ssl_cert.pem"@,
        ),
        ssl_key_file: string_view(vars, "SSL_KEY_FILE"@, "/var/lib/marzban-node/ssl_key.pem"@),
        ssl_client_cert_file: match var_view(vars, "SSL_CLIENT_CERT_FILE"@) {
            Some(path) => if trimmed(path).len() > 0 {
                Some(path)
            } else {
                None
            },
            None => None,
        },
        debug: bool_view(vars, "DEBUG"@, false),
        inbounds: tags_view(string_view(vars, "INBOUNDS"@, Seq::empty())),
    }
}

/// The value of a variable.
pub fn env_var(vars: &Vec<(String, String)>, key: &str) -> (value: Option<String>)
    ensures
        opt_text(value) == var_view(vars@, key@),
{
    let mut i: usize = 0;
    assert(vars@.skip(0) =~= vars@);
    while i < vars.len()
        invariant
            i <= vars@.len(),
            var_view(vars@, key@) == var_view(vars@.skip(i as int), key@),
        decreases vars@.len() - i,
    {
        assert(vars@.skip(i as int)[0] == vars@[i as int]);
        assert(vars@.skip(i as int).drop_first() =~= vars@.skip(i + 1));
        if text_eq(vars[i].0.as_str(), key) {
            return Some(vars[i].1.clone());
        }
        i = i + 1;
    }
    None
}

/// The text of a variable, or a default.
pub fn env_string(vars: &Vec<(String, String)>, key: &str, default: &str) -> (value: String)
    ensures
        value@ == string_view(vars@, key@, default@),
{
    match env_var(vars, key) {
        Some(value) => value,
        None => default.to_owned(),
    }
}

/// The number of a variable, or a default.
pub fn env_u16(vars: &Vec<(String, String)>, key: &str, default: u16) -> (value: u16)
    ensures
        value == u16_view(vars@, key@, default),
{
    match env_var(vars, key) {
        Some(value) => match parse_unsigned(value.as_str(), u16::MAX as u64) {
            Some(n) => n as u16,
            None => default,
        },
        None => default,
    }
}

/// The switch of a variable, or a default.
pub fn env_bool(vars: &Vec<(String, String)>, key: &str, default: bool) -> (value: bool)
    ensures
        value == bool_view(vars@, key@, default),
{
    match env_var(vars, key) {
        Some(value) => {
            let word = to_lower(value.as_str());
            let w = word.as_str();
            if text_eq(w, "1") || text_eq(w, "true") || text_eq(w, "yes") || text_eq(w, "on") {
                true
            } else if text_eq(w, "0") || text_eq(w, "false") || text_eq(w, "no") || text_eq(
                w,
                "off",
            ) {
                false
            } else {
                default
            }
        },
        None => default,
    }
}

/// Whether a text has no characters.
fn is_blank(s: &str) -> (yes: bool)
    ensures
        yes == (s@.len() == 0),
{
    proof {
        reveal_strlit("");
        if s@.len() == 0 {
            assert(s@ =~= ""@);
        }
    }
    text_eq(s, "")
}

/// The tags of a comma-separated list.
pub fn parse_tags(list: &str) -> (tags: Vec<String>)
    ensures
        texts(tags@) == tags_view(list@),
{
    let pieces = split(list, ',');
    let ghost models = texts(pieces@);
    let ghost f = |piece: Seq<char>|
        if trimmed(piece).len() > 0 {
            Some(trimmed(piece))
        } else {
            None
        };
    let mut tags: Vec<String> = Vec::new();
    let mut i: usize = 0;
    assert(texts(tags@) =~= models.take(0).filter_map(f));
    while i < pieces.len()
        invariant
            i <= pieces@.len(),
            models == texts(pieces@),
            f == (|piece: Seq<char>|
                if trimmed(piece).len() > 0 {
                    Some(trimmed(piece))
                } else {
                    None
                }),
            texts(tags@) == models.take(i as int).filter_map(f),
        decreases pieces@.len() - i,
    {
        let ghost done = tags@;
        proof {
            models.lemma_filter_map_take_succ(f, i as int);
        }
        assert(models[i as int] == pieces@[i as int]@);
        let tag = trim(pieces[i].as_str());
        if !is_blank(tag.as_str()) {
            tags.push(tag);
            assert(texts(tags@) =~= texts(done).push(tag@));
        }
        assert(texts(tags@) =~= models.take(i + 1).filter_map(f));
        i = i + 1;
    }
    assert(models.take(i as int) =~= models);
    tags
}

impl Settings {
    /// Reads the settings out of environment variables.
    pub fn from_env(vars: &Vec<(String, String)>) -> (settings: Settings)
        ensures
            settings@ == settings_view(vars@),
    {
        let ssl_client_cert_file = match env_var(vars, "SSL_CLIENT_CERT_FILE") {
            Some(path) => if is_blank(trim(path.as_str()).as_str()) {
                None
            } else {
                Some(path)
            },
            None => None,
        };
        let list = match env_var(vars, "INBOUNDS") {
            Some(list) => list,
            None => String::new(),
        };
        Settings {
            service_host: env_string(vars, "SERVICE_HOST", "0.0.0.0"),
            service_port: env_u16(vars, "SERVICE_PORT", 62050),
            xray_api_host: env_string(vars, "XRAY_API_HOST", "0.0.0.0"),
            xray_api_port: env_u16(vars, "XRAY_API_PORT", 62051),
            xray_executable_path: env_string(vars, "XRAY_EXECUTABLE_PATH", "/usr/local/bin/xray"),
            xray_assets_path: env_string(vars, "XRAY_ASSETS_PATH", "/usr/local/share/xray"),
            sing_box_executable_path: env_string(
                vars,
                "SING_BOX_EXECUTABLE_PATH",
                "/usr/local/bin/sing-box",
            ),
            ssl_cert_file: env_string(vars, "SSL_CERT_FILE", "/var/lib/marzban-node/ssl_cert.pem"),
            ssl_key_file: env_string(vars, "SSL_KEY_FILE", "/var/lib/marzban-node/ssl_key.pem"),
            ssl_client_cert_file,
            debug: env_bool(vars, "DEBUG", false),
            inbounds: parse_tags(list.as_str()),
        }
    }
}

/// No tag out of a comma-separated list is empty.
pub proof fn listed_tags_are_not_empty(list: Seq<char>, i: int)
    requires
        0 <= i < tags_view(list).len(),
    ensures
        tags_view(list)[i].len() > 0,
{
    let f = |piece: Seq<char>|
        if trimmed(piece).len() > 0 {
            Some(trimmed(piece))
        } else {
            None
        };
    let pieces = split_all(list, ',');
    let tag = tags_view(list)[i];
    assert(pieces.filter_map(f).contains(tag));
    pieces.lemma_filter_map_contains(f, tag);
}

} // verus!
