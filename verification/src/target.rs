//! What the authority of a target names: an address, and behind a question
//! mark the settings that say which stream and function to send and whether
//! to wait.

use crate::error::Error;
use crate::text::{
    byte_number, characters, find, first_at, first_at_is_first, parse_byte,
};
use vstd::prelude::*;
use vstd::string::StrSliceExecFns;

verus! {

/// What the query of a target sets.
#[derive(Clone, Copy, Debug, PartialEq, Eq, Structural)]
pub struct Settings {
    pub stream: u8,
    pub function: u8,
    pub wait: bool,
}

impl Settings {
    /// The settings once `key` is set to `number`; a key that is none of
    /// them sets nothing.
    pub open spec fn with(self, key: Seq<char>, number: u8) -> Settings {
        if key == "stream"@ {
            Settings { stream: number, ..self }
        } else if key == "function"@ {
            Settings { function: number, ..self }
        } else if key == "wait"@ {
            Settings { wait: number != 0, ..self }
        } else {
            self
        }
    }
}

/// What stands in `text` before `separator`, or all of it.
pub open spec fn before(text: Seq<char>, separator: char) -> Seq<char> {
    text.take(first_at(text, separator))
}

/// What stands in `text` behind `separator`, or nothing.
pub open spec fn behind(text: Seq<char>, separator: char) -> Seq<char> {
    if first_at(text, separator) < text.len() {
        text.skip(first_at(text, separator) + 1)
    } else {
        Seq::empty()
    }
}

/// What `query`, settings apart by `&`, makes of `settings`, one setting
/// after the other; or the key and the value of the first setting whose value
/// is not a number from 0 to 255.
pub open spec fn after_query(query: Seq<char>, settings: Settings) -> Result<
    Settings,
    (Seq<char>, Seq<char>),
>
    decreases query.len(),
{
    if query.len() == 0 {
        Ok(settings)
    } else {
        proof {
            first_at_is_first(query, '&');
        }
        let pair = before(query, '&');
        let rest = behind(query, '&');
        let key = before(pair, '=');
        let value = behind(pair, '=');
        if pair.len() == 0 {
            after_query(rest, settings)
        } else {
            match byte_number(value) {
                Some(number) => after_query(rest, settings.with(key, number)),
                None => Err((key, value)),
            }
        }
    }
}

/// What `authority` names: the address before its question mark, and S6F11
/// but for what the query behind it sets.
pub open spec fn named_by(authority: Seq<char>, wait: bool) -> Result<
    (Seq<char>, Settings),
    (Seq<char>, Seq<char>),
> {
    match after_query(behind(authority, '?'), Settings { stream: 6, function: 11, wait }) {
        Ok(settings) => Ok((before(authority, '?'), settings)),
        Err(setting) => Err(setting),
    }
}

/// Whether the characters of `chars` from `from` up to `to` spell `word`.
fn spells(chars: &Vec<char>, from: usize, to: usize, word: &str) -> (same: bool)
    requires
        from <= to <= chars@.len(),
    ensures
        same == (chars@.subrange(from as int, to as int) == word@),
{
    let ghost text = chars@.subrange(from as int, to as int);
    let letters = characters(word);
    if letters.len() != to - from {
        return false;
    }
    let mut at: usize = 0;
    while at < letters.len()
        invariant
            at <= letters@.len() == to - from,
            from <= to <= chars@.len(),
            text == chars@.subrange(from as int, to as int),
            letters@ == word@,
            forall|i: int| 0 <= i < at ==> #[trigger] text[i] == letters@[i],
        decreases letters@.len() - at,
    {
        assert(text[at as int] == chars@[from + at]);
        if chars[from + at] != letters[at] {
            return false;
        }
        at = at + 1;
    }
    assert(text =~= word@);
    true
}

/// The address and the settings that `authority` names, `wait` being what it
/// leaves unsaid.
pub fn read_authority(authority: &str, wait: bool) -> (result: Result<(String, Settings), Error>)
    ensures
        match named_by(authority@, wait) {
            Ok(named) => {
                &&& result matches Ok((address, settings))
                &&& address@ == named.0
                &&& settings == named.1
            },
            Err(setting) => {
                &&& result matches Err(Error::NotANumber { key, value })
                &&& key@ == setting.0
                &&& value@ == setting.1
            },
        },
{
    let chars = characters(authority);
    let end = chars.len();
    let mark = find(&chars, 0, end, '?');
    assert(chars@.subrange(0, end as int) =~= authority@);
    let mut settings = Settings { stream: 6, function: 11, wait };
    let mut at: usize = if mark < end {
        mark + 1
    } else {
        end
    };
    let ghost whole = after_query(behind(authority@, '?'), settings);
    assert(chars@.subrange(at as int, end as int) =~= behind(authority@, '?'));
    while at < end
        invariant
            at <= end == chars@.len(),
            chars@ == authority@,
            whole == after_query(chars@.subrange(at as int, end as int), settings),
            whole is Ok ==> named_by(authority@, wait) == Ok::<
                (Seq<char>, Settings),
                (Seq<char>, Seq<char>),
            >((before(authority@, '?'), whole->Ok_0)),
            whole is Err ==> named_by(authority@, wait) == Err::<
                (Seq<char>, Settings),
                (Seq<char>, Seq<char>),
            >(whole->Err_0),
        decreases end - at,
    {
        let ghost query = chars@.subrange(at as int, end as int);
        let stop = find(&chars, at, end, '&');
        let next: usize = if stop < end {
            stop + 1
        } else {
            end
        };
        let ghost pair = before(query, '&');
        assert(pair =~= chars@.subrange(at as int, stop as int));
        assert(behind(query, '&') =~= chars@.subrange(next as int, end as int));
        if at < stop {
            let equals = find(&chars, at, stop, '=');
            let from: usize = if equals < stop {
                equals + 1
            } else {
                stop
            };
            assert(before(pair, '=') =~= chars@.subrange(at as int, equals as int));
            assert(behind(pair, '=') =~= chars@.subrange(from as int, stop as int));
            let number = match parse_byte(&chars, from, stop) {
                Some(number) => number,
                None => {
                    return Err(
                        Error::NotANumber {
                            key: authority.substring_char(at, equals).to_owned(),
                            value: authority.substring_char(from, stop).to_owned(),
                        },
                    );
                },
            };
            if spells(&chars, at, equals, "stream") {
                settings.stream = number;
            } else if spells(&chars, at, equals, "function") {
                settings.function = number;
            } else if spells(&chars, at, equals, "wait") {
                settings.wait = number != 0;
            }
        }
        at = next;
    }
    assert(chars@.subrange(at as int, end as int) =~= Seq::empty());
    Ok((authority.substring_char(0, mark).to_owned(), settings))
}

} // verus!
