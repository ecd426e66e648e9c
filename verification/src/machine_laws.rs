//! What is found out about the machine: versions, executables, memory, sockets.
use vstd::prelude::*;
use vstd::string::*;
use crate::config::SettingsView;
use crate::number::{decimal, decimal_round_trip};
use crate::runtime::{
    CORE_VERSION_TIMEOUT, CoreError, CoreErrorView, InstallView, InstalledView, core_error_text,
    detected_view, detection_view, first_version_rest, fresh_view, install_view, installed_view,
    missing_view, rss_pages_view, version_in,
};
use crate::server::address_view;
use crate::session::{hex_digit, session_text_view};
use crate::sockets::{SocketView, hex_value, is_hex, socket_in, sockets_in};
use crate::text::{
    after_prefix, is_white_space, lines_of, lower_char, lowered, split_all, split_first,
    split_last, utf8_lossy, words_of,
};
use crate::text_laws::{
    is_blank, is_word, joined_pieces_are_split, prefix_is_taken_off, split_first_takes_apart,
    split_last_takes_apart, words_stand_between_blanks,
};
use crate::xray_config::CoreKind;

verus! {

/// A line tells the version of a core: it starts with `Xray `, and with
/// `sing-box version ` or only `sing-box ` respectively. What follows is `rest`.
pub open spec fn tells_version(core: CoreKind, line: Seq<char>, rest: Seq<char>) -> bool {
    match core {
        CoreKind::Xray => line == "Xray "@ + rest,
        CoreKind::SingBox => {
            ||| line == "sing-box version "@ + rest
            ||| line == "sing-box "@ + rest && !"version "@.is_prefix_of(rest)
        },
    }
}

/// A line tells no version of a core.
pub open spec fn tells_no_version(core: CoreKind, line: Seq<char>) -> bool {
    match core {
        CoreKind::Xray => !"Xray "@.is_prefix_of(line),
        CoreKind::SingBox => !"sing-box "@.is_prefix_of(line),
    }
}

proof fn lemma_sing_box_prefix()
    ensures
        "sing-box version "@ == "sing-box "@ + "version "@,
{
    reveal_strlit("sing-box version ");
    reveal_strlit("sing-box ");
    reveal_strlit("version ");
    assert("sing-box version "@ =~= "sing-box "@ + "version "@);
}

proof fn lemma_version_rest(core: CoreKind, line: Seq<char>, rest: Seq<char>)
    ensures
        tells_version(core, line, rest) ==> crate::runtime::version_rest(core, line) == Some(rest),
        tells_no_version(core, line) ==> crate::runtime::version_rest(core, line) is None,
{
    lemma_sing_box_prefix();
    match core {
        CoreKind::Xray => {
            prefix_is_taken_off("Xray "@, rest, line);
        },
        CoreKind::SingBox => {
            prefix_is_taken_off("sing-box version "@, rest, line);
            prefix_is_taken_off("sing-box "@, rest, line);
            match after_prefix(line, "sing-box version "@) {
                Some(other) => {
                    assert(line =~= "sing-box "@ + ("version "@ + other));
                    assert(line.take("sing-box "@.len() as int) =~= "sing-box "@);
                    assert("sing-box "@.is_prefix_of(line));
                    if line == "sing-box "@ + rest {
                        assert(rest =~= line.skip("sing-box "@.len() as int));
                        assert(rest =~= "version "@ + other);
                        assert(rest.take("version "@.len() as int) =~= "version "@);
                        assert("version "@.is_prefix_of(rest));
                    }
                },
                None => {},
            }
        },
    }
}

proof fn lemma_first_rest(core: CoreKind, lines: Seq<Seq<char>>, at: int, rest: Seq<char>)
    requires
        forall|j: int|
            0 <= j < at && j < lines.len() ==> tells_no_version(core, #[trigger] lines[j]),
        0 <= at <= lines.len(),
        at < lines.len() ==> tells_version(core, lines[at], rest),
    ensures
        first_version_rest(core, lines) == (if at < lines.len() {
            Some(rest)
        } else {
            None
        }),
    decreases at,
{
    if at == 0 {
        if lines.len() > 0 {
            lemma_version_rest(core, lines[0], rest);
        }
    } else {
        lemma_version_rest(core, lines[0], rest);
        assert(tells_no_version(core, lines[0]));
        let tail = lines.drop_first();
        assert(at < lines.len() ==> tail[at - 1] == lines[at]);
        assert forall|j: int| 0 <= j < at - 1 && j < tail.len() implies tells_no_version(
            core,
            #[trigger] tail[j],
        ) by {
            assert(tail[j] == lines[j + 1]);
        }
        lemma_first_rest(core, tail, at - 1, rest);
    }
}

/// The version of a core is the first word behind the name in the first line that
/// starts with the name.
pub proof fn version_is_the_word_behind_the_name(
    core: CoreKind,
    text: Seq<char>,
    at: int,
    gap: Seq<char>,
    version: Seq<char>,
    tail: Seq<char>,
)
    requires
        0 <= at < lines_of(text).len(),
        forall|j: int| 0 <= j < at ==> tells_no_version(core, #[trigger] lines_of(text)[j]),
        is_blank(gap),
        is_word(version),
        tail.len() > 0 ==> is_white_space(tail[0]),
        tells_version(core, lines_of(text)[at], gap + (version + tail)),
    ensures
        version_in(core, text) == Some(version),
{
    let rest = gap + (version + tail);
    lemma_first_rest(core, lines_of(text), at, rest);
    words_stand_between_blanks(gap, version, version + tail);
    words_stand_between_blanks(gap, version, tail);
    if tail.len() == 0 {
        assert(version + tail =~= version);
    }
    assert(words_of(rest)[0] == version);
}

/// There is no version where no line starts with the name, nor where nothing but
/// blanks follows it in the first such line. Then the detection fails and names the
/// core.
pub proof fn output_without_version_is_an_error(
    core: CoreKind,
    output: Seq<u8>,
    at: int,
    gap: Seq<char>,
)
    requires
        ({
            let lines = lines_of(utf8_lossy(output));
            &&& 0 <= at <= lines.len()
            &&& forall|j: int| 0 <= j < at ==> tells_no_version(core, #[trigger] lines[j])
            &&& at < lines.len() ==> is_blank(gap) && tells_version(core, lines[at], gap)
        }),
    ensures
        version_in(core, utf8_lossy(output)) is None,
        detected_view(core, Ok(output)) == Err::<Seq<char>, CoreErrorView>(
            CoreErrorView::VersionNotFound(
                match core {
                    CoreKind::Xray => "Xray"@,
                    CoreKind::SingBox => "sing-box"@,
                },
            ),
        ),
{
    let lines = lines_of(utf8_lossy(output));
    lemma_first_rest(core, lines, at, gap);
    if at < lines.len() {
        reveal_strlit("x");
        words_stand_between_blanks(gap, "x"@, Seq::empty());
    }
}

/// A version that is found is the outcome of the detection, and so is the error of
/// a command that failed.
pub proof fn detection_follows_the_output(core: CoreKind, output: Seq<u8>, error: CoreErrorView)
    ensures
        version_in(core, utf8_lossy(output)) is Some ==> detected_view(core, Ok(output)) == Ok::<
            Seq<char>,
            CoreErrorView,
        >(version_in(core, utf8_lossy(output))->0),
        detected_view(core, Err(error)) == Err::<Seq<char>, CoreErrorView>(error),
{
}

/// What a core error says: each is told in words of its own, with the name of the
/// core where it is about its version, and with the message where it came with
/// one.
pub proof fn core_errors_are_told(message: Seq<char>, core: Seq<char>)
    ensures
        core_error_text(CoreErrorView::Io(message)) == message,
        core_error_text(CoreErrorView::VersionNotFound(core)).take(17) == "Failed to detect "@,
        core_error_text(CoreErrorView::VersionNotFound(core)).skip(17) == core + " version"@,
        core_error_text(CoreErrorView::VersionTimeout(core)).take(core.len() as int) == core,
        core_error_text(CoreErrorView::VersionTimeout(core)).skip(core.len() as int)
            == " version detection timed out"@,
        core_error_text(CoreErrorView::AlreadyStarted) == "Core is started already"@,
        core_error_text(CoreErrorView::NoCoreRequired)
            == "No core is required for the selected inbounds"@,
        core_error_text(CoreErrorView::StdinUnavailable) == "Core stdin is unavailable"@,
{
    reveal_strlit("Failed to detect ");
    let missing = core_error_text(CoreErrorView::VersionNotFound(core));
    assert(missing.take(17) =~= "Failed to detect "@);
    assert(missing.skip(17) =~= core + " version"@);
    let late = core_error_text(CoreErrorView::VersionTimeout(core));
    assert(late.take(core.len() as int) =~= core);
    assert(late.skip(core.len() as int) =~= " version detection timed out"@);
}

/// An entry is that of an executable: it is installed if its version was found,
/// and has the path in any case.
pub open spec fn is_entry_of(
    entry: InstallView,
    name: Seq<char>,
    path: Seq<char>,
    version: Option<Seq<char>>,
) -> bool {
    &&& entry.installed == version is Some
    &&& entry.version == version
    &&& entry.path == Some(path)
    &&& version is Some ==> entry.source == "configured_path"@
    &&& version is None ==> entry.source == "configured_path:"@ + name
}

/// The installed cores are told by the paths of the settings and by what came of
/// asking each for its version.
pub proof fn installed_cores_follow_their_versions(
    settings: SettingsView,
    xray: Option<Seq<char>>,
    sing_box: Option<Seq<char>>,
)
    ensures
        is_entry_of(
            installed_view(settings, xray, sing_box).xray,
            "xray"@,
            settings.xray_executable_path,
            xray,
        ),
        is_entry_of(
            installed_view(settings, xray, sing_box).sing_box,
            "sing-box"@,
            settings.sing_box_executable_path,
            sing_box,
        ),
{
}

/// The list of installed cores is taken from the last time it was made if that is
/// less than a minute ago, in nanoseconds.
pub proof fn installed_cores_are_kept_for_a_minute(
    cache: Option<(u64, InstalledView)>,
    now: u64,
)
    ensures
        fresh_view(cache, now) is Some <==> cache is Some && now - (cache->0).0 < 60_000_000_000,
        fresh_view(cache, now) is Some ==> fresh_view(cache, now) == Some((cache->0).1),
{
}

/// A version command is given up after three seconds.
pub proof fn version_commands_have_three_seconds()
    ensures
        CORE_VERSION_TIMEOUT == 3 * 1_000_000_000,
{
}

/// The number of resident pages is the second word of its text.
pub proof fn resident_pages_are_the_second_word(
    first: Seq<char>,
    gap: Seq<char>,
    pages: u64,
    tail: Seq<char>,
)
    requires
        is_word(first),
        gap.len() > 0,
        is_blank(gap),
        tail.len() > 0 ==> is_white_space(tail[0]),
    ensures
        rss_pages_view(first + (gap + (decimal(pages as nat) + tail))) == Some(pages as nat),
        rss_pages_view(first + gap) is None,
        rss_pages_view(gap) is None,
{
    let number = decimal(pages as nat);
    let rest = gap + (number + tail);
    assert(is_white_space(gap[0]));
    assert(rest[0] == gap[0]);
    lemma_number_is_word(pages as nat);
    words_stand_between_blanks(gap, first, rest);
    words_stand_between_blanks(gap, number, number + tail);
    words_stand_between_blanks(gap, number, tail);
    if tail.len() == 0 {
        assert(number + tail =~= number);
    }
    words_stand_between_blanks(gap, first, gap);
    decimal_round_trip(pages as nat, u64::MAX as nat);
    assert(words_of(first + rest)[1] == number);
}

proof fn lemma_number_is_word(n: nat)
    ensures
        is_word(decimal(n)),
{
    crate::text_laws::decimal_has_no_leading_zero(n);
    assert forall|i: int| 0 <= i < decimal(n).len() implies !is_white_space(
        #[trigger] decimal(n)[i],
    ) by {
        assert('0' <= decimal(n)[i] <= '9');
    }
}

/// The service listens at the host and the port of the settings: the port stands
/// behind the last colon.
pub proof fn listen_address_is_host_and_port(settings: SettingsView)
    ensures
        split_last(address_view(settings), ':') == Some(
            (settings.service_host, decimal(settings.service_port as nat)),
        ),
{
    reveal_strlit(":");
    assert(":"@ =~= seq![':']);
    let port = decimal(settings.service_port as nat);
    crate::text_laws::decimal_has_no_leading_zero(settings.service_port as nat);
    assert(!port.contains(':')) by {
        if port.contains(':') {
            let k = choose|k: int| 0 <= k < port.len() && port[k] == ':';
            assert('0' <= port[k] <= '9');
        }
    }
    split_last_takes_apart(address_view(settings), ':');
    assert(address_view(settings) == settings.service_host + seq![':'] + port);
}

/// The sixteen hexadecimal digits, small and capital, have their values, and no
/// other character has one.
pub proof fn hex_digits_have_their_values(n: int, c: char)
    requires
        0 <= n < 16,
    ensures
        hex_value("0123456789abcdef"@[n]) == Some(n as nat),
        hex_value("0123456789ABCDEF"@[n]) == Some(n as nat),
        !"0123456789abcdef"@.contains(lower_char(c)) ==> hex_value(c) is None,
{
    reveal_strlit("0123456789abcdef");
    reveal_strlit("0123456789ABCDEF");
    if hex_value(c) is Some {
        let k = hex_value(c)->0 as int;
        assert("0123456789abcdef"@[k] == lower_char(c)) by {
            assert(0 <= k < 16);
            let low = lower_char(c);
            assert(k < 10 ==> low as int == 48 + k);
            assert(k >= 10 ==> low as int == 87 + k);
            let d = "0123456789abcdef"@[k];
            assert(k < 10 ==> d as int == 48 + k);
            assert(k >= 10 ==> d as int == 87 + k);
        }
    }
}

/// The value of two hexadecimal digits from a position on.
pub open spec fn two_digits(hex: Seq<char>, at: int) -> nat {
    16 * hex_value(hex[at])->0 + hex_value(hex[at + 1])->0
}

proof fn lemma_two_digits(hex: Seq<char>, i: int)
    requires
        0 <= i,
        2 * i + 2 <= hex.len(),
        is_hex(hex),
    ensures
        crate::sockets::hex_number(crate::sockets::byte_at(hex, i)) == two_digits(hex, 2 * i),
{
    let part = crate::sockets::byte_at(hex, i);
    reveal_with_fuel(crate::sockets::hex_number, 3);
    assert(part.last() == hex[2 * i + 1]);
    assert(part.drop_last().last() == hex[2 * i]);
    assert(part.drop_last().drop_last() =~= Seq::empty());
    assert(hex_value(hex[2 * i]) is Some);
    assert(hex_value(hex[2 * i + 1]) is Some);
}

/// An IPv4 address is read backwards: the last two of its eight hexadecimal digits
/// are the first of the four numbers that stand between dots.
pub proof fn ipv4_addresses_are_read_backwards(hex: Seq<char>)
    requires
        hex.len() == 8,
        is_hex(hex),
    ensures
        crate::sockets::address_view(hex) is Some,
        split_all(crate::sockets::address_view(hex)->0, '.') == seq![
            decimal(two_digits(hex, 6)),
            decimal(two_digits(hex, 4)),
            decimal(two_digits(hex, 2)),
            decimal(two_digits(hex, 0)),
        ],
{
    lemma_two_digits(hex, 0);
    lemma_two_digits(hex, 1);
    lemma_two_digits(hex, 2);
    lemma_two_digits(hex, 3);
    let parts = Seq::new(
        4,
        |i: int| decimal(crate::sockets::hex_number(crate::sockets::byte_at(hex, 3 - i))),
    );
    reveal_strlit(".");
    assert("."@ =~= seq!['.']);
    assert forall|i: int| 0 <= i < parts.len() implies !(#[trigger] parts[i]).contains('.') by {
        let n = crate::sockets::hex_number(crate::sockets::byte_at(hex, 3 - i));
        crate::text_laws::decimal_has_no_leading_zero(n);
        if decimal(n).contains('.') {
            let k = choose|k: int| 0 <= k < decimal(n).len() && decimal(n)[k] == '.';
            assert('0' <= decimal(n)[k] <= '9');
        }
    }
    joined_pieces_are_split(parts, '.');
    assert(parts =~= seq![
        decimal(two_digits(hex, 6)),
        decimal(two_digits(hex, 4)),
        decimal(two_digits(hex, 2)),
        decimal(two_digits(hex, 0)),
    ]);
}

/// The four digits of a group of an IPv6 address, out of the 32 of a table: each
/// eight digits hold two groups, of which the bytes stand in reverse.
pub open spec fn group_of(hex: Seq<char>, group: int) -> Seq<char> {
    let at = if group % 2 == 0 {
        4 * group + 6
    } else {
        4 * group - 2
    };
    seq![
        lower_char(hex[at]),
        lower_char(hex[at + 1]),
        lower_char(hex[at - 2]),
        lower_char(hex[at - 1]),
    ]
}

/// An IPv6 address is written as eight groups of four small digits between colons.
pub proof fn ipv6_addresses_have_eight_groups(hex: Seq<char>, group: int)
    requires
        hex.len() == 32,
        is_hex(hex),
        0 <= group < 8,
    ensures
        crate::sockets::address_view(hex) is Some,
        split_all(crate::sockets::address_view(hex)->0, ':').len() == 8,
        split_all(crate::sockets::address_view(hex)->0, ':')[group] == group_of(hex, group),
{
    let parts = Seq::new(
        8,
        |i: int|
            lowered(
                crate::sockets::byte_at(hex, i / 2 * 4 + 3 - i % 2 * 2) + crate::sockets::byte_at(
                    hex,
                    i / 2 * 4 + 2 - i % 2 * 2,
                ),
            ),
    );
    reveal_strlit(":");
    assert(":"@ =~= seq![':']);
    assert forall|i: int| 0 <= i < parts.len() implies parts[i] == group_of(hex, i) by {
        let high = i / 2 * 4 + 3 - i % 2 * 2;
        let low = i / 2 * 4 + 2 - i % 2 * 2;
        assert(0 <= low < 16 && 0 <= high < 16);
        let digits = crate::sockets::byte_at(hex, high) + crate::sockets::byte_at(hex, low);
        assert(2 * high == if i % 2 == 0 {
            4 * i + 6
        } else {
            4 * i - 2
        });
        assert(digits[0] == hex[2 * high]);
        assert(digits[1] == hex[2 * high + 1]);
        assert(digits[2] == hex[2 * high - 2]);
        assert(digits[3] == hex[2 * high - 1]);
        assert(parts[i] =~= group_of(hex, i));
    }
    assert forall|i: int| 0 <= i < parts.len() implies !(#[trigger] parts[i]).contains(':') by {
        assert(parts[i] == group_of(hex, i));
        let at = if i % 2 == 0 {
            4 * i + 6
        } else {
            4 * i - 2
        };
        assert(hex_value(hex[at]) is Some);
        assert(hex_value(hex[at + 1]) is Some);
        assert(hex_value(hex[at - 2]) is Some);
        assert(hex_value(hex[at - 1]) is Some);
    }
    joined_pieces_are_split(parts, ':');
}

/// Only eight and 32 hexadecimal digits are an address.
pub proof fn other_texts_are_no_address(hex: Seq<char>)
    ensures
        crate::sockets::address_view(hex) is Some <==> is_hex(hex) && (hex.len() == 8 || hex.len()
            == 32),
{
}

/// A row of a table tells a listening socket if and only if its fourth word is the
/// state `0A` for TCP, `07` for UDP, and its second word is an address, a colon and
/// a port of four hexadecimal digits. The socket has that address and port.
pub proof fn listening_rows_tell_sockets(
    protocol: Seq<char>,
    row: Seq<char>,
    address: Seq<char>,
    port: Seq<char>,
)
    requires
        words_of(row).len() > 3,
        words_of(row)[1] == address + seq![':'] + port,
        !address.contains(':'),
    ensures
        ({
            let state = if protocol.len() >= 3 && protocol.take(3) == "udp"@ {
                "07"@
            } else {
                "0A"@
            };
            let listens = words_of(row)[3] == state && crate::sockets::address_view(address) is Some
                && port.len() == 4 && is_hex(port);
            match socket_in(protocol, row) {
                Some(socket) => {
                    &&& listens
                    &&& socket.protocol == protocol
                    &&& Some(socket.address) == crate::sockets::address_view(address)
                    &&& socket.port == 256 * two_digits(port, 0) + two_digits(port, 2)
                },
                None => !listens,
            }
        }),
{
    reveal_strlit("udp");
    split_first_takes_apart(words_of(row)[1], ':');
    assert(split_first(words_of(row)[1], ':') == Some((address, port)));
    if protocol.len() >= 3 && protocol.take(3) == "udp"@ {
        assert("udp"@.is_prefix_of(protocol)) by {
            assert forall|i: int| 0 <= i < 3 implies protocol[i] == "udp"@[i] by {
                assert(protocol.take(3)[i] == protocol[i]);
            }
        }
    } else if "udp"@.is_prefix_of(protocol) {
        assert(protocol.take(3) =~= "udp"@);
    }
    if port.len() == 4 && is_hex(port) {
        reveal_with_fuel(crate::sockets::hex_number, 5);
        assert(port.last() == port[3]);
        let three = port.drop_last();
        let two = three.drop_last();
        let one = two.drop_last();
        assert(three.last() == port[2] && two.last() == port[1] && one.last() == port[0]);
        assert(one.drop_last() =~= Seq::empty());
        assert(hex_value(port[0]) is Some && hex_value(port[1]) is Some);
        assert(hex_value(port[2]) is Some && hex_value(port[3]) is Some);
        assert(hex_value(port[0])->0 < 16 && hex_value(port[1])->0 < 16);
        assert(hex_value(port[2])->0 < 16 && hex_value(port[3])->0 < 16);
    }
}

/// A row of less than four words, or without a colon in the second one, tells no
/// socket.
pub proof fn short_rows_tell_nothing(protocol: Seq<char>, row: Seq<char>)
    requires
        words_of(row).len() <= 3 || !words_of(row)[1].contains(':'),
    ensures
        socket_in(protocol, row) is None,
{
    if words_of(row).len() > 3 {
        split_first_takes_apart(words_of(row)[1], ':');
        match split_first(words_of(row)[1], ':') {
            Some((head, tail)) => {
                assert((head + seq![':'] + tail)[head.len() as int] == ':');
            },
            None => {},
        }
    }
}

/// Every row of a table that tells a socket is among its sockets, in order.
pub proof fn every_listening_row_is_found(protocol: Seq<char>, table: Seq<char>, at: int)
    requires
        0 <= at < lines_of(table).len(),
    ensures
        ({
            let told = |row: Seq<char>| socket_in(protocol, row) is Some;
            let place = lines_of(table).take(at).filter(told).len() as int;
            &&& sockets_in(protocol, table).len() == lines_of(table).filter(told).len()
            &&& socket_in(protocol, lines_of(table)[at]) is Some ==> place < sockets_in(
                protocol,
                table,
            ).len() && Some(sockets_in(protocol, table)[place]) == socket_in(
                protocol,
                lines_of(table)[at],
            )
        }),
{
    let f = |row: Seq<char>| socket_in(protocol, row);
    let told = |row: Seq<char>| socket_in(protocol, row) is Some;
    lemma_rows_count(lines_of(table), f, told);
    if socket_in(protocol, lines_of(table)[at]) is Some {
        lemma_rows_place(lines_of(table), f, told, at);
    }
}

proof fn lemma_rows_count(
    rows: Seq<Seq<char>>,
    f: spec_fn(Seq<char>) -> Option<SocketView>,
    p: spec_fn(Seq<char>) -> bool,
)
    requires
        forall|x: Seq<char>| #[trigger] p(x) <==> f(x) is Some,
    ensures
        rows.filter_map(f).len() == rows.filter(p).len(),
    decreases rows.len(),
{
    reveal(Seq::filter);
    if rows.len() > 0 {
        lemma_rows_count(rows.drop_last(), f, p);
        assert(p(rows.last()) <==> f(rows.last()) is Some);
    }
}

proof fn lemma_rows_place(
    rows: Seq<Seq<char>>,
    f: spec_fn(Seq<char>) -> Option<SocketView>,
    p: spec_fn(Seq<char>) -> bool,
    at: int,
)
    requires
        0 <= at < rows.len(),
        forall|x: Seq<char>| #[trigger] p(x) <==> f(x) is Some,
        f(rows[at]) is Some,
    ensures
        rows.take(at).filter(p).len() < rows.filter_map(f).len(),
        rows.filter_map(f)[rows.take(at).filter(p).len() as int] == f(rows[at])->0,
    decreases rows.len(),
{
    let front = rows.drop_last();
    lemma_rows_count(front, f, p);
    if at == rows.len() - 1 {
        assert(rows.take(at) =~= front);
        assert(rows.last() == rows[at]);
    } else {
        assert(front[at] == rows[at]);
        assert(front.take(at) =~= rows.take(at));
        lemma_rows_place(front, f, p, at);
    }
}

/// The entry of an executable follows its version, whatever the name of the core.
pub proof fn entry_follows_the_version(
    name: Seq<char>,
    path: Seq<char>,
    version: Option<Seq<char>>,
)
    ensures
        is_entry_of(install_view(name, path, version), name, path, version),
        is_entry_of(missing_view(name, path), name, path, None),
{
}

/// A detection that found a version counts; one that failed or broke off does not.
pub proof fn only_found_versions_count(version: String, error: CoreError)
    ensures
        detection_view(Some(Ok(version))) == Some(version@),
        detection_view(Some(Err(error))) is None,
        detection_view(None) is None,
{
}

/// The text of a session id has 36 characters: hyphens at four places, and small
/// hexadecimal digits everywhere else.
pub proof fn session_text_has_its_layout(id: u128, at: int)
    requires
        0 <= at < 36,
    ensures
        session_text_view(id).len() == 36,
        session_text_view(id)[at] == '-' <==> at == 8 || at == 13 || at == 18 || at == 23,
        session_text_view(id)[at] != '-' ==> '0' <= session_text_view(id)[at] <= '9' || 'a'
            <= session_text_view(id)[at] <= 'f',
{
    let place = if at < 8 {
        31 - at
    } else if at < 13 {
        32 - at
    } else if at < 18 {
        33 - at
    } else if at < 23 {
        34 - at
    } else {
        35 - at
    };
    assert(0 <= hex_digit(id, place as nat) < 16) by {
        let q = id as int / vstd::arithmetic::power::pow(16, place as nat);
        assert(0 <= q % 16 < 16);
    }
}

/// A text is hexadecimal if and only if each of its characters is a hexadecimal
/// digit, small or capital.
pub proof fn hex_texts_have_hex_digits_only(s: Seq<char>)
    ensures
        is_hex(s) <==> forall|i: int|
            0 <= i < s.len() ==> "0123456789abcdef"@.contains(lower_char(#[trigger] s[i])),
{
    reveal_strlit("0123456789abcdef");
    assert forall|c: char| "0123456789abcdef"@.contains(#[trigger] lower_char(c)) implies hex_value(
        c,
    ) is Some by {
        let k = choose|k: int| 0 <= k < 16 && "0123456789abcdef"@[k] == lower_char(c);
        let d = "0123456789abcdef"@[k];
        assert('0' <= d <= '9' || 'a' <= d <= 'f');
    }
    if is_hex(s) {
        assert forall|i: int| 0 <= i < s.len() implies "0123456789abcdef"@.contains(
            lower_char(#[trigger] s[i]),
        ) by {
            assert(hex_value(s[i]) is Some);
            hex_digits_have_their_values(0, s[i]);
        }
    } else {
        let i = choose|i: int| 0 <= i < s.len() && hex_value(#[trigger] s[i]) is None;
        assert(!"0123456789abcdef"@.contains(lower_char(s[i])));
    }
}

} // verus!
