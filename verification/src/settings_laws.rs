//! What the environment variables set.
use vstd::prelude::*;
use vstd::string::*;
use crate::config::{
    bool_view, settings_view, string_view, switch_view, u16_view, var_view,
};
use crate::number::{decimal, decimal_round_trip, unsigned_value};
use crate::text::{joined, lowered, trimmed};
use crate::text_laws::{is_blank, joined_pieces_are_split, trimming_takes_only_white_space};

verus! {

/// A variable is set to a value: the first variable of that name has it.
pub open spec fn is_set(vars: Seq<(String, String)>, key: Seq<char>, value: Seq<char>) -> bool {
    exists|i: int|
        0 <= i < vars.len() && (#[trigger] vars[i]).0@ == key && vars[i].1@ == value && forall|
            j: int,
        |
            0 <= j < i ==> (#[trigger] vars[j]).0@ != key
}

/// A variable is not set: there is none of that name.
pub open spec fn is_unset(vars: Seq<(String, String)>, key: Seq<char>) -> bool {
    forall|i: int| 0 <= i < vars.len() ==> (#[trigger] vars[i]).0@ != key
}

proof fn lemma_var(vars: Seq<(String, String)>, key: Seq<char>)
    ensures
        match var_view(vars, key) {
            Some(value) => is_set(vars, key, value),
            None => is_unset(vars, key),
        },
    decreases vars.len(),
{
    if vars.len() > 0 {
        if vars[0].0@ == key {
            assert(is_set(vars, key, vars[0].1@));
        } else {
            let rest = vars.drop_first();
            lemma_var(rest, key);
            match var_view(vars, key) {
                Some(value) => {
                    let i = choose|i: int|
                        0 <= i < rest.len() && (#[trigger] rest[i]).0@ == key && rest[i].1@ == value
                            && forall|j: int| 0 <= j < i ==> (#[trigger] rest[j]).0@ != key;
                    assert(vars[i + 1] == rest[i]);
                    assert forall|j: int| 0 <= j < i + 1 implies (#[trigger] vars[j]).0@ != key by {
                        if j > 0 {
                            assert(rest[j - 1] == vars[j]);
                        }
                    }
                    assert(is_set(vars, key, value));
                },
                None => {
                    assert forall|j: int| 0 <= j < vars.len() implies (#[trigger] vars[j]).0@
                        != key by {
                        if j > 0 {
                            assert(rest[j - 1] == vars[j]);
                        }
                    }
                },
            }
        }
    }
}

proof fn lemma_set(vars: Seq<(String, String)>, key: Seq<char>, value: Seq<char>)
    ensures
        is_set(vars, key, value) <==> var_view(vars, key) == Some(value),
        is_unset(vars, key) <==> var_view(vars, key) is None,
{
    lemma_var(vars, key);
    if is_set(vars, key, value) {
        let i = choose|i: int|
            0 <= i < vars.len() && (#[trigger] vars[i]).0@ == key && vars[i].1@ == value && forall|
                j: int,
            |
                0 <= j < i ==> (#[trigger] vars[j]).0@ != key;
        match var_view(vars, key) {
            Some(other) => {
                let k = choose|k: int|
                    0 <= k < vars.len() && (#[trigger] vars[k]).0@ == key && vars[k].1@ == other
                        && forall|j: int| 0 <= j < k ==> (#[trigger] vars[j]).0@ != key;
                assert(i == k);
            },
            None => {},
        }
    }
}

/// Each text setting is the value of its variable, as it stands.
pub proof fn text_variables_are_taken_over(vars: Seq<(String, String)>, value: Seq<char>)
    ensures
        is_set(vars, "SERVICE_HOST"@, value) ==> settings_view(vars).service_host == value,
        is_set(vars, "XRAY_API_HOST"@, value) ==> settings_view(vars).xray_api_host == value,
        is_set(vars, "XRAY_EXECUTABLE_PATH"@, value) ==> settings_view(vars).xray_executable_path
            == value,
        is_set(vars, "XRAY_ASSETS_PATH"@, value) ==> settings_view(vars).xray_assets_path == value,
        is_set(vars, "SING_BOX_EXECUTABLE_PATH"@, value) ==> settings_view(
            vars,
        ).sing_box_executable_path == value,
        is_set(vars, "SSL_CERT_FILE"@, value) ==> settings_view(vars).ssl_cert_file == value,
        is_set(vars, "SSL_KEY_FILE"@, value) ==> settings_view(vars).ssl_key_file == value,
        is_set(vars, "SSL_CLIENT_CERT_FILE"@, value) && !is_blank(value) ==> settings_view(
            vars,
        ).ssl_client_cert_file == Some(value),
        is_set(vars, "SSL_CLIENT_CERT_FILE"@, value) && is_blank(value) ==> settings_view(
            vars,
        ).ssl_client_cert_file is None,
{
    lemma_set(vars, "SERVICE_HOST"@, value);
    lemma_set(vars, "XRAY_API_HOST"@, value);
    lemma_set(vars, "XRAY_EXECUTABLE_PATH"@, value);
    lemma_set(vars, "XRAY_ASSETS_PATH"@, value);
    lemma_set(vars, "SING_BOX_EXECUTABLE_PATH"@, value);
    lemma_set(vars, "SSL_CERT_FILE"@, value);
    lemma_set(vars, "SSL_KEY_FILE"@, value);
    lemma_set(vars, "SSL_CLIENT_CERT_FILE"@, value);
    trimming_takes_only_white_space(value);
}

/// A port setting is the number that its variable holds, where that is one of 16
/// bits, and the default otherwise.
pub proof fn port_variables_are_read(vars: Seq<(String, String)>, value: Seq<char>, port: u16)
    ensures
        is_set(vars, "SERVICE_PORT"@, decimal(port as nat)) ==> settings_view(vars).service_port
            == port,
        is_set(vars, "XRAY_API_PORT"@, decimal(port as nat)) ==> settings_view(vars).xray_api_port
            == port,
        is_set(vars, "SERVICE_PORT"@, value) && unsigned_value(value, 65535) is None
            ==> settings_view(vars).service_port == 62050,
        is_set(vars, "XRAY_API_PORT"@, value) && unsigned_value(value, 65535) is None
            ==> settings_view(vars).xray_api_port == 62051,
{
    decimal_round_trip(port as nat, 65535);
    lemma_set(vars, "SERVICE_PORT"@, decimal(port as nat));
    lemma_set(vars, "XRAY_API_PORT"@, decimal(port as nat));
    lemma_set(vars, "SERVICE_PORT"@, value);
    lemma_set(vars, "XRAY_API_PORT"@, value);
}

/// What is not set has its default.
pub proof fn unset_variables_have_defaults(vars: Seq<(String, String)>)
    ensures
        is_unset(vars, "SERVICE_HOST"@) ==> settings_view(vars).service_host == "0.0.0.0"@,
        is_unset(vars, "SERVICE_PORT"@) ==> settings_view(vars).service_port == 62050,
        is_unset(vars, "XRAY_API_HOST"@) ==> settings_view(vars).xray_api_host == "0.0.0.0"@,
        is_unset(vars, "XRAY_API_PORT"@) ==> settings_view(vars).xray_api_port == 62051,
        is_unset(vars, "XRAY_EXECUTABLE_PATH"@) ==> settings_view(vars).xray_executable_path
            == "/usr/local/bin/xray"@,
        is_unset(vars, "XRAY_ASSETS_PATH"@) ==> settings_view(vars).xray_assets_path
            == "/usr/local/share/xray"@,
        is_unset(vars, "SING_BOX_EXECUTABLE_PATH"@) ==> settings_view(
            vars,
        ).sing_box_executable_path == "/usr/local/bin/sing-box"@,
        is_unset(vars, "SSL_CERT_FILE"@) ==> settings_view(vars).ssl_cert_file
            == "/var/lib/marzban-node/ssl_cert.pem"@,
        is_unset(vars, "SSL_KEY_FILE"@) ==> settings_view(vars).ssl_key_file
            == "/var/lib/marzban-node/ssl_key.pem"@,
        is_unset(vars, "SSL_CLIENT_CERT_FILE"@) ==> settings_view(vars).ssl_client_cert_file is None,
        is_unset(vars, "DEBUG"@) ==> !settings_view(vars).debug,
        is_unset(vars, "INBOUNDS"@) ==> settings_view(vars).inbounds.len() == 0,
{
    lemma_var(vars, "SERVICE_HOST"@);
    lemma_set(vars, "SERVICE_HOST"@, Seq::empty());
    lemma_set(vars, "SERVICE_PORT"@, Seq::empty());
    lemma_set(vars, "XRAY_API_HOST"@, Seq::empty());
    lemma_set(vars, "XRAY_API_PORT"@, Seq::empty());
    lemma_set(vars, "XRAY_EXECUTABLE_PATH"@, Seq::empty());
    lemma_set(vars, "XRAY_ASSETS_PATH"@, Seq::empty());
    lemma_set(vars, "SING_BOX_EXECUTABLE_PATH"@, Seq::empty());
    lemma_set(vars, "SSL_CERT_FILE"@, Seq::empty());
    lemma_set(vars, "SSL_KEY_FILE"@, Seq::empty());
    lemma_set(vars, "SSL_CLIENT_CERT_FILE"@, Seq::empty());
    lemma_set(vars, "DEBUG"@, Seq::empty());
    lemma_set(vars, "INBOUNDS"@, Seq::empty());
    trimming_takes_only_white_space(Seq::empty());
    lemma_blank_pieces(seq![Seq::empty()]);
    joined_pieces_are_split(seq![Seq::empty()], ',');
    assert(joined(seq![Seq::<char>::empty()], seq![',']) =~= Seq::empty());
}

proof fn lemma_switch_words()
    ensures
        "1"@.len() == 1,
        "0"@.len() == 1,
        "true"@.len() == 4,
        "false"@.len() == 5,
        "yes"@.len() == 3,
        "no"@.len() == 2,
        "on"@.len() == 2,
        "off"@.len() == 3,
        "1"@ != "0"@,
        "yes"@ != "off"@,
        "no"@ != "on"@,
{
    reveal_strlit("1");
    reveal_strlit("0");
    reveal_strlit("true");
    reveal_strlit("false");
    reveal_strlit("yes");
    reveal_strlit("no");
    reveal_strlit("on");
    reveal_strlit("off");
    assert("1"@[0] != "0"@[0]);
    assert("yes"@[0] != "off"@[0]);
    assert("no"@[0] != "on"@[0]);
}

/// The node debugs if and only if `DEBUG` is set to `1`, `true`, `yes` or `on`, in
/// any case of letters.
pub proof fn debug_is_switched_on(vars: Seq<(String, String)>, value: Seq<char>)
    requires
        is_set(vars, "DEBUG"@, value),
    ensures
        settings_view(vars).debug <==> {
            ||| lowered(value) == "1"@
            ||| lowered(value) == "true"@
            ||| lowered(value) == "yes"@
            ||| lowered(value) == "on"@
        },
{
    lemma_set(vars, "DEBUG"@, value);
    lemma_switch_words();
}

/// A switch is on or off for four words each, and neither for any other.
pub proof fn switches_are_on_or_off(value: Seq<char>)
    ensures
        switch_view(value) == Some(true) <==> lowered(value) == "1"@ || lowered(value) == "true"@
            || lowered(value) == "yes"@ || lowered(value) == "on"@,
        switch_view(value) == Some(false) <==> lowered(value) == "0"@ || lowered(value) == "false"@
            || lowered(value) == "no"@ || lowered(value) == "off"@,
{
    lemma_switch_words();
}

proof fn lemma_blank_pieces(pieces: Seq<Seq<char>>)
    requires
        forall|i: int| 0 <= i < pieces.len() ==> is_blank(#[trigger] pieces[i]),
    ensures
        pieces.filter_map(
            |piece: Seq<char>|
                if trimmed(piece).len() > 0 {
                    Some(trimmed(piece))
                } else {
                    None
                },
        ).len() == 0,
    decreases pieces.len(),
{
    if pieces.len() > 0 {
        let front = pieces.drop_last();
        assert(forall|i: int| 0 <= i < front.len() ==> front[i] == pieces[i]);
        lemma_blank_pieces(front);
        assert(is_blank(pieces[pieces.len() - 1]));
        trimming_takes_only_white_space(pieces.last());
    }
}

proof fn lemma_tag_pieces(pieces: Seq<Seq<char>>)
    ensures
        ({
            let tags = pieces.filter_map(
                |piece: Seq<char>|
                    if trimmed(piece).len() > 0 {
                        Some(trimmed(piece))
                    } else {
                        None
                    },
            );
            &&& tags.len() == pieces.filter(|piece: Seq<char>| !is_blank(piece)).len()
            &&& forall|at: int|
                0 <= at < pieces.len() && !is_blank(#[trigger] pieces[at]) ==> {
                    let place = pieces.take(at).filter(|piece: Seq<char>| !is_blank(piece)).len();
                    place < tags.len() && tags[place as int] == trimmed(pieces[at])
                }
        }),
    decreases pieces.len(),
{
    reveal(Seq::filter);
    let f = |piece: Seq<char>|
        if trimmed(piece).len() > 0 {
            Some(trimmed(piece))
        } else {
            None
        };
    let p = |piece: Seq<char>| !is_blank(piece);
    let tags = pieces.filter_map(f);
    if pieces.len() > 0 {
        let front = pieces.drop_last();
        lemma_tag_pieces(front);
        trimming_takes_only_white_space(pieces.last());
        assert forall|at: int| 0 <= at < pieces.len() && !is_blank(#[trigger] pieces[at]) implies {
            let place = pieces.take(at).filter(p).len();
            place < tags.len() && tags[place as int] == trimmed(pieces[at])
        } by {
            if at < front.len() {
                assert(front[at] == pieces[at]);
                assert(front.take(at) =~= pieces.take(at));
            } else {
                assert(pieces.take(at) =~= front);
            }
        }
    }
}

/// The tags of a comma-separated list are what stands between the commas, without
/// the white space around it: one tag for each piece that is not blank, in order.
pub proof fn every_piece_is_a_tag(vars: Seq<(String, String)>, pieces: Seq<Seq<char>>, at: int)
    requires
        pieces.len() > 0,
        forall|i: int| 0 <= i < pieces.len() ==> !(#[trigger] pieces[i]).contains(','),
        is_set(vars, "INBOUNDS"@, joined(pieces, seq![','])),
        0 <= at < pieces.len(),
    ensures
        ({
            let tags = settings_view(vars).inbounds;
            let told = |piece: Seq<char>| !is_blank(piece);
            let place = pieces.take(at).filter(told).len() as int;
            &&& tags.len() == pieces.filter(told).len()
            &&& !is_blank(pieces[at]) ==> place < tags.len() && tags[place] == trimmed(pieces[at])
        }),
{
    lemma_set(vars, "INBOUNDS"@, joined(pieces, seq![',']));
    joined_pieces_are_split(pieces, ',');
    lemma_tag_pieces(pieces);
}

/// A variable that is set is read as it is; one that is not set has the default.
/// A number or a switch that cannot be read has the default too.
pub proof fn variables_are_read_or_defaulted(
    vars: Seq<(String, String)>,
    key: Seq<char>,
    value: Seq<char>,
    port: u16,
    text_default: Seq<char>,
    number_default: u16,
    switch_default: bool,
)
    ensures
        is_set(vars, key, value) ==> var_view(vars, key) == Some(value),
        is_unset(vars, key) ==> var_view(vars, key) is None,
        is_set(vars, key, value) ==> string_view(vars, key, text_default) == value,
        is_unset(vars, key) ==> string_view(vars, key, text_default) == text_default,
        is_set(vars, key, decimal(port as nat)) ==> u16_view(vars, key, number_default) == port,
        is_set(vars, key, value) && unsigned_value(value, 65535) is None ==> u16_view(
            vars,
            key,
            number_default,
        ) == number_default,
        is_unset(vars, key) ==> u16_view(vars, key, number_default) == number_default,
        is_set(vars, key, value) && (lowered(value) == "1"@ || lowered(value) == "true"@ || lowered(
            value,
        ) == "yes"@ || lowered(value) == "on"@) ==> bool_view(vars, key, switch_default),
        is_set(vars, key, value) && (lowered(value) == "0"@ || lowered(value) == "false"@
            || lowered(value) == "no"@ || lowered(value) == "off"@) ==> !bool_view(
            vars,
            key,
            switch_default,
        ),
        is_set(vars, key, value) && switch_view(value) is None ==> bool_view(
            vars,
            key,
            switch_default,
        ) == switch_default,
        is_unset(vars, key) ==> bool_view(vars, key, switch_default) == switch_default,
{
    lemma_set(vars, key, value);
    lemma_set(vars, key, decimal(port as nat));
    decimal_round_trip(port as nat, 65535);
    switches_are_on_or_off(value);
}

} // verus!
