//! What holds of targets: what a target was written to name, it names.

use crate::connection::ConnectionView;
use crate::hsms::Header;
use crate::target::{after_query, before, behind, named_by, Settings};
use crate::text::{
    byte_by_digit, byte_number, decimal, digit, digits_value, first_at, first_at_is_first,
    first_at_unique, is_digit, unsigned_part,
};
use vstd::prelude::*;

verus! {

/// Whether `separator` stands nowhere in `text`.
pub open spec fn lacks(text: Seq<char>, separator: char) -> bool {
    forall|i: int| 0 <= i < text.len() ==> #[trigger] text[i] != separator
}

/// A text is split where its separator first stands.
proof fn split_at_separator(first: Seq<char>, separator: char, second: Seq<char>)
    requires
        lacks(first, separator),
    ensures
        before(first + seq![separator] + second, separator) == first,
        behind(first + seq![separator] + second, separator) == second,
{
    let text = first + seq![separator] + second;
    first_at_unique(text, separator, first.len() as int);
    assert(before(text, separator) =~= first);
    assert(behind(text, separator) =~= second);
}

/// A text without the separator is all before it.
proof fn split_nowhere(text: Seq<char>, separator: char)
    requires
        lacks(text, separator),
    ensures
        before(text, separator) == text,
        behind(text, separator) == Seq::<char>::empty(),
{
    first_at_unique(text, separator, text.len() as int);
    assert(before(text, separator) =~= text);
}

/// A decimal numeral is digits, at least one, and they spell its number.
proof fn numeral_read_back(n: nat)
    ensures
        decimal(n).len() > 0,
        forall|i: int| 0 <= i < decimal(n).len() ==> is_digit(#[trigger] decimal(n)[i]),
        digits_value(decimal(n)) == n,
    decreases n,
{
    let text = decimal(n);
    if n < 10 {
        assert(text.drop_last() =~= Seq::empty());
        assert(digits_value(Seq::empty()) == 0);
        assert(text.last() == digit(n));
    } else {
        numeral_read_back(n / 10);
        assert(text.drop_last() =~= decimal(n / 10));
        assert(text.last() == digit(n % 10));
    }
}

/// A number from 0 to 255 is read back from its decimal digits.
pub proof fn byte_read_back(n: u8)
    ensures
        byte_number(decimal(n as nat)) == Some(n),
        lacks(decimal(n as nat), '&'),
        lacks(decimal(n as nat), '='),
{
    let text = decimal(n as nat);
    numeral_read_back(n as nat);
    assert(is_digit(text[0]));
    assert(unsigned_part(text) == text);
}

/// A greater number is not read as one from 0 to 255.
proof fn greater_not_read(n: nat)
    requires
        n > 255,
    ensures
        byte_number(decimal(n)) is None,
        lacks(decimal(n), '&'),
        lacks(decimal(n), '='),
{
    let text = decimal(n);
    numeral_read_back(n);
    assert(is_digit(text[0]));
    assert(unsigned_part(text) == text);
}

/// The setting of `key` to `number`, as a query spells it.
pub open spec fn setting(key: Seq<char>, number: nat) -> Seq<char> {
    key + seq!['='] + decimal(number)
}

/// Key and value of a setting.
proof fn setting_split(key: Seq<char>, number: nat)
    requires
        lacks(key, '&'),
        lacks(key, '='),
        lacks(decimal(number), '&'),
    ensures
        lacks(setting(key, number), '&'),
        before(setting(key, number), '=') == key,
        behind(setting(key, number), '=') == decimal(number),
{
    split_at_separator(key, '=', decimal(number));
}

/// A setting that stands before others takes effect before them.
proof fn setting_then(key: Seq<char>, number: u8, rest: Seq<char>, settings: Settings)
    requires
        lacks(key, '&'),
        lacks(key, '='),
    ensures
        after_query(setting(key, number as nat) + seq!['&'] + rest, settings) == after_query(
            rest,
            settings.with(key, number),
        ),
{
    byte_read_back(number);
    setting_split(key, number as nat);
    split_at_separator(setting(key, number as nat), '&', rest);
}

/// A setting that stands alone takes effect.
proof fn setting_alone(key: Seq<char>, number: u8, settings: Settings)
    requires
        lacks(key, '&'),
        lacks(key, '='),
    ensures
        after_query(setting(key, number as nat), settings) == Ok::<
            Settings,
            (Seq<char>, Seq<char>),
        >(settings.with(key, number)),
{
    byte_read_back(number);
    setting_split(key, number as nat);
    split_nowhere(setting(key, number as nat), '&');
    assert(after_query(Seq::empty(), settings.with(key, number)) == Ok::<
        Settings,
        (Seq<char>, Seq<char>),
    >(settings.with(key, number)));
}

/// The authority of a target that says all it can.
pub open spec fn authority_of(
    address: Seq<char>,
    stream: u8,
    function: u8,
    wait: bool,
) -> Seq<char> {
    address + "?stream="@ + decimal(stream as nat) + "&function="@ + decimal(function as nat)
        + "&wait="@ + decimal(
        if wait {
            1
        } else {
            0
        },
    )
}

/// What the keys of the settings are made of.
proof fn keys()
    ensures
        "stream"@ == seq!['s', 't', 'r', 'e', 'a', 'm'],
        "function"@ == seq!['f', 'u', 'n', 'c', 't', 'i', 'o', 'n'],
        "wait"@ == seq!['w', 'a', 'i', 't'],
        lacks("stream"@, '&') && lacks("stream"@, '='),
        lacks("function"@, '&') && lacks("function"@, '='),
        lacks("wait"@, '&') && lacks("wait"@, '='),
        "?stream="@ == seq!['?'] + "stream"@ + seq!['='],
        "&stream="@ == seq!['&'] + "stream"@ + seq!['='],
        "&function="@ == seq!['&'] + "function"@ + seq!['='],
        "&wait="@ == seq!['&'] + "wait"@ + seq!['='],
{
    reveal_strlit("stream");
    reveal_strlit("function");
    reveal_strlit("wait");
    reveal_strlit("?stream=");
    reveal_strlit("&stream=");
    reveal_strlit("&function=");
    reveal_strlit("&wait=");
    assert("stream"@ =~= seq!['s', 't', 'r', 'e', 'a', 'm']);
    assert("function"@ =~= seq!['f', 'u', 'n', 'c', 't', 'i', 'o', 'n']);
    assert("wait"@ =~= seq!['w', 'a', 'i', 't']);
    assert("?stream="@ =~= seq!['?'] + "stream"@ + seq!['=']);
    assert("&stream="@ =~= seq!['&'] + "stream"@ + seq!['=']);
    assert("&function="@ =~= seq!['&'] + "function"@ + seq!['=']);
    assert("&wait="@ =~= seq!['&'] + "wait"@ + seq!['=']);
}

/// A target that was written to name an address, a stream, a function and
/// whether to wait names them, whatever the transport is set to.
pub proof fn target_read_back(
    address: Seq<char>,
    stream: u8,
    function: u8,
    wait: bool,
    unsaid: bool,
)
    requires
        lacks(address, '?'),
    ensures
        named_by(authority_of(address, stream, function, wait), unsaid) == Ok::<
            (Seq<char>, Settings),
            (Seq<char>, Seq<char>),
        >((address, Settings { stream, function, wait })),
{
    let flag: u8 = if wait {
        1
    } else {
        0
    };
    let third = setting("wait"@, flag as nat);
    let second = setting("function"@, function as nat) + seq!['&'] + third;
    let query = setting("stream"@, stream as nat) + seq!['&'] + second;
    let unset = Settings { stream: 6, function: 11, wait: unsaid };
    keys();
    assert(authority_of(address, stream, function, wait) =~= address + seq!['?'] + query);
    split_at_separator(address, '?', query);
    setting_then("stream"@, stream, second, unset);
    setting_then("function"@, function, third, unset.with("stream"@, stream));
    setting_alone(
        "wait"@,
        flag,
        unset.with("stream"@, stream).with("function"@, function),
    );
}

/// An address without a query names S6F11, and leaves it to the transport
/// whether to wait.
pub proof fn bare_authority(address: Seq<char>, unsaid: bool)
    requires
        lacks(address, '?'),
    ensures
        named_by(address, unsaid) == Ok::<(Seq<char>, Settings), (Seq<char>, Seq<char>)>(
            (address, Settings { stream: 6, function: 11, wait: unsaid }),
        ),
{
    split_nowhere(address, '?');
}

/// The authority of an origin URI: what stands behind its scheme.
pub open spec fn origin_authority(connection: ConnectionView, header: Header) -> Seq<char> {
    connection.peer + "?session="@ + decimal(header.session_id as nat) + "&stream="@ + decimal(
        header.stream as nat,
    ) + "&function="@ + decimal(header.function as nat)
}

/// An origin URI is the scheme and its authority; as a target it names the
/// far end and the stream and function the message came under. That is so of
/// session ids up to 255; a greater one is refused as a setting.
pub proof fn origin_names_message(connection: ConnectionView, header: Header, unsaid: bool)
    requires
        lacks(connection.peer, '?'),
    ensures
        connection.origin(header) == "secs-gem://"@ + origin_authority(connection, header),
        named_by(origin_authority(connection, header), unsaid) == if header.session_id <= 255 {
            Ok::<(Seq<char>, Settings), (Seq<char>, Seq<char>)>(
                (
                    connection.peer,
                    Settings { stream: header.stream, function: header.function, wait: unsaid },
                ),
            )
        } else {
            Err::<(Seq<char>, Settings), (Seq<char>, Seq<char>)>(
                ("session"@, decimal(header.session_id as nat)),
            )
        },
{
    let third = setting("function"@, header.function as nat);
    let second = setting("stream"@, header.stream as nat) + seq!['&'] + third;
    let first = setting("session"@, header.session_id as nat);
    let query = first + seq!['&'] + second;
    let unset = Settings { stream: 6, function: 11, wait: unsaid };
    keys();
    reveal_strlit("session");
    reveal_strlit("?session=");
    assert("session"@ =~= seq!['s', 'e', 's', 's', 'i', 'o', 'n']);
    assert("?session="@ =~= seq!['?'] + "session"@ + seq!['=']);
    assert(connection.origin(header) =~= "secs-gem://"@ + origin_authority(connection, header));
    assert(origin_authority(connection, header) =~= connection.peer + seq!['?'] + query);
    split_at_separator(connection.peer, '?', query);
    if header.session_id <= 255 {
        assert("session"@[1] == 'e' && "stream"@[1] == 't' && "function"@[1] == 'u' && "wait"@[1]
            == 'a');
        setting_then("session"@, header.session_id as u8, second, unset);
        assert(unset.with("session"@, header.session_id as u8) == unset);
        setting_then("stream"@, header.stream, third, unset);
        setting_alone("function"@, header.function, unset.with("stream"@, header.stream));
    } else {
        greater_not_read(header.session_id as nat);
        setting_split("session"@, header.session_id as nat);
        split_at_separator(first, '&', second);
    }
}

/// A setting sets its own and nothing else; the number of `wait` says yes
/// unless it is 0; a key that is none of the three sets nothing.
pub proof fn setting_sets_its_own(settings: Settings, key: Seq<char>, number: u8)
    ensures
        settings.with("stream"@, number).stream == number,
        settings.with("stream"@, number).function == settings.function,
        settings.with("stream"@, number).wait == settings.wait,
        settings.with("function"@, number).stream == settings.stream,
        settings.with("function"@, number).function == number,
        settings.with("function"@, number).wait == settings.wait,
        settings.with("wait"@, number).stream == settings.stream,
        settings.with("wait"@, number).function == settings.function,
        settings.with("wait"@, number).wait <==> number != 0,
        key != "stream"@ && key != "function"@ && key != "wait"@ ==> settings.with(key, number)
            == settings,
{
    keys();
    assert("stream"@.len() == 6 && "function"@.len() == 8 && "wait"@.len() == 4);
}

/// A text is what stands before its separator, the separator, and what stands
/// behind it; and it is split at the first. A text without one is all before
/// it.
pub proof fn text_split(text: Seq<char>, separator: char)
    ensures
        lacks(before(text, separator), separator),
        lacks(text, separator) ==> before(text, separator) == text && behind(
            text,
            separator,
        ).len() == 0,
        !lacks(text, separator) ==> text == before(text, separator) + seq![separator] + behind(
            text,
            separator,
        ),
{
    first_at_is_first(text, separator);
    if lacks(text, separator) {
        split_nowhere(text, separator);
    } else {
        let at = first_at(text, separator);
        assert(at < text.len());
        assert(text =~= before(text, separator) + seq![separator] + behind(text, separator));
    }
}

/// A query setting by setting: no setting changes nothing, and neither does an
/// empty one; a key, `=` and a number sets what the key names, and then the
/// rest is read; a key without `=`, or with anything else behind it, is refused
/// as it is spelled, whatever the rest.
pub proof fn query_by_setting(
    key: Seq<char>,
    value: Seq<char>,
    rest: Seq<char>,
    settings: Settings,
)
    requires
        lacks(key, '&'),
        lacks(key, '='),
        lacks(value, '&'),
    ensures
        after_query(Seq::empty(), settings) == Ok::<Settings, (Seq<char>, Seq<char>)>(settings),
        after_query(seq!['&'] + rest, settings) == after_query(rest, settings),
        ({
            let pair = key + seq!['='] + value;
            match byte_number(value) {
                Some(number) => {
                    &&& after_query(pair, settings) == Ok::<Settings, (Seq<char>, Seq<char>)>(
                        settings.with(key, number),
                    )
                    &&& after_query(pair + seq!['&'] + rest, settings) == after_query(
                        rest,
                        settings.with(key, number),
                    )
                },
                None => {
                    let refused = Err::<Settings, (Seq<char>, Seq<char>)>((key, value));
                    &&& after_query(pair, settings) == refused
                    &&& after_query(pair + seq!['&'] + rest, settings) == refused
                },
            }
        }),
        key.len() > 0 ==> {
            let refused = Err::<Settings, (Seq<char>, Seq<char>)>((key, Seq::empty()));
            &&& after_query(key, settings) == refused
            &&& after_query(key + seq!['&'] + rest, settings) == refused
        },
{
    let pair = key + seq!['='] + value;
    split_at_separator(Seq::empty(), '&', rest);
    assert(Seq::<char>::empty() + seq!['&'] + rest =~= seq!['&'] + rest);
    split_at_separator(key, '=', value);
    split_nowhere(pair, '&');
    split_at_separator(pair, '&', rest);
    split_nowhere(key, '&');
    split_nowhere(key, '=');
    split_at_separator(key, '&', rest);
    byte_by_digit(Seq::empty(), '0');
    if let Some(number) = byte_number(value) {
        assert(after_query(Seq::empty(), settings.with(key, number)) == Ok::<
            Settings,
            (Seq<char>, Seq<char>),
        >(settings.with(key, number)));
    }
}

/// An authority is an address, a question mark and a query, and names that
/// address and what the query makes of S6F11 and the wait that the transport
/// is set to; it is refused where the query is.
pub proof fn authority_by_part(address: Seq<char>, query: Seq<char>, unsaid: bool)
    requires
        lacks(address, '?'),
    ensures
        named_by(address + seq!['?'] + query, unsaid) == match after_query(
            query,
            Settings { stream: 6, function: 11, wait: unsaid },
        ) {
            Ok(settings) => Ok::<(Seq<char>, Settings), (Seq<char>, Seq<char>)>(
                (address, settings),
            ),
            Err(setting) => Err::<(Seq<char>, Settings), (Seq<char>, Seq<char>)>(setting),
        },
{
    split_at_separator(address, '?', query);
}

/// A query that names stream, function and wait names the same in every order
/// of its settings.
pub proof fn settings_in_any_order(
    address: Seq<char>,
    stream: u8,
    function: u8,
    flag: u8,
    unsaid: bool,
)
    requires
        lacks(address, '?'),
    ensures
        ({
            let named = Ok::<(Seq<char>, Settings), (Seq<char>, Seq<char>)>(
                (address, Settings { stream, function, wait: flag != 0 }),
            );
            let s = setting("stream"@, stream as nat);
            let f = setting("function"@, function as nat);
            let w = setting("wait"@, flag as nat);
            let and = seq!['&'];
            let at = address + seq!['?'];
            &&& named_by(at + (s + and + (f + and + w)), unsaid) == named
            &&& named_by(at + (s + and + (w + and + f)), unsaid) == named
            &&& named_by(at + (f + and + (s + and + w)), unsaid) == named
            &&& named_by(at + (f + and + (w + and + s)), unsaid) == named
            &&& named_by(at + (w + and + (s + and + f)), unsaid) == named
            &&& named_by(at + (w + and + (f + and + s)), unsaid) == named
        }),
{
    keys();
    settings_two_orders(address, "stream"@, stream, "function"@, function, "wait"@, flag, unsaid);
    settings_two_orders(address, "function"@, function, "stream"@, stream, "wait"@, flag, unsaid);
    settings_two_orders(address, "wait"@, flag, "stream"@, stream, "function"@, function, unsaid);
    let unset = Settings { stream: 6, function: 11, wait: unsaid };
    setting_sets_its_own(unset, "stream"@, stream);
    setting_sets_its_own(unset, "function"@, function);
    setting_sets_its_own(unset, "wait"@, flag);
}

/// One setting before two others, in both orders of these.
proof fn settings_two_orders(
    address: Seq<char>,
    first: Seq<char>,
    one: u8,
    second: Seq<char>,
    two: u8,
    third: Seq<char>,
    three: u8,
    unsaid: bool,
)
    requires
        lacks(address, '?'),
        lacks(first, '&') && lacks(first, '='),
        lacks(second, '&') && lacks(second, '='),
        lacks(third, '&') && lacks(third, '='),
    ensures
        ({
            let unset = Settings { stream: 6, function: 11, wait: unsaid };
            let a = setting(first, one as nat);
            let b = setting(second, two as nat);
            let c = setting(third, three as nat);
            let and = seq!['&'];
            let at = address + seq!['?'];
            &&& named_by(at + (a + and + (b + and + c)), unsaid) == Ok::<
                (Seq<char>, Settings),
                (Seq<char>, Seq<char>),
            >((address, unset.with(first, one).with(second, two).with(third, three)))
            &&& named_by(at + (a + and + (c + and + b)), unsaid) == Ok::<
                (Seq<char>, Settings),
                (Seq<char>, Seq<char>),
            >((address, unset.with(first, one).with(third, three).with(second, two)))
        }),
{
    let unset = Settings { stream: 6, function: 11, wait: unsaid };
    let a = setting(first, one as nat);
    let b = setting(second, two as nat);
    let c = setting(third, three as nat);
    let and = seq!['&'];
    let after = unset.with(first, one);
    authority_by_part(address, a + and + (b + and + c), unsaid);
    authority_by_part(address, a + and + (c + and + b), unsaid);
    setting_then(first, one, b + and + c, unset);
    setting_then(first, one, c + and + b, unset);
    setting_then(second, two, c, after);
    setting_then(third, three, b, after);
    setting_alone(third, three, after.with(second, two));
    setting_alone(second, two, after.with(third, three));
}

/// A query that names one of them leaves the rest at S6F11 and at the wait
/// that the transport is set to.
pub proof fn unsaid_settings_stay(address: Seq<char>, number: u8, unsaid: bool)
    requires
        lacks(address, '?'),
    ensures
        named_by(address + seq!['?'] + setting("stream"@, number as nat), unsaid) == Ok::<
            (Seq<char>, Settings),
            (Seq<char>, Seq<char>),
        >((address, Settings { stream: number, function: 11, wait: unsaid })),
        named_by(address + seq!['?'] + setting("function"@, number as nat), unsaid) == Ok::<
            (Seq<char>, Settings),
            (Seq<char>, Seq<char>),
        >((address, Settings { stream: 6, function: number, wait: unsaid })),
        named_by(address + seq!['?'] + setting("wait"@, number as nat), unsaid) == Ok::<
            (Seq<char>, Settings),
            (Seq<char>, Seq<char>),
        >((address, Settings { stream: 6, function: 11, wait: number != 0 })),
{
    let unset = Settings { stream: 6, function: 11, wait: unsaid };
    keys();
    authority_by_part(address, setting("stream"@, number as nat), unsaid);
    authority_by_part(address, setting("function"@, number as nat), unsaid);
    authority_by_part(address, setting("wait"@, number as nat), unsaid);
    setting_alone("stream"@, number, unset);
    setting_alone("function"@, number, unset);
    setting_alone("wait"@, number, unset);
    setting_sets_its_own(unset, "stream"@, number);
}

} // verus!
