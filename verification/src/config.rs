//! Runtime options: how they are written on the wire, and what they configure.

use vstd::prelude::*;
use vstd::utf8::*;

use crate::error::{Error, ErrorView};
use crate::text::text_eq;

verus! {

/// The key of the option that has containers put under systemd's cgroups.
pub const SYSTEMD_CGROUP_KEY: &'static str = "SystemdCgroup";

/// The runtime options of containerd's configuration.
#[derive(Clone, Copy, Debug, PartialEq, Eq)]
pub struct Config {
    pub systemd_cgroup: bool,
}

impl Default for Config {
    fn default() -> (res: Self)
        ensures
            !res.systemd_cgroup,
    {
        Config { systemd_cgroup: false }
    }
}

/// A message of any type, in its wire format.
#[derive(Clone, Debug, PartialEq, Eq)]
pub struct Any {
    pub type_url: String,
    pub value: Vec<u8>,
}

/// The message that runtime options come in. The body is TOML.
#[derive(Clone, Debug, PartialEq, Eq)]
pub struct Options {
    pub type_url: String,
    pub config_path: String,
    pub config_body: String,
}

/// Options whose texts are sequences of characters.
pub struct OptionsView {
    pub type_url: Seq<char>,
    pub config_path: Seq<char>,
    pub config_body: Seq<char>,
}

impl View for Options {
    type V = OptionsView;

    open spec fn view(&self) -> OptionsView {
        OptionsView {
            type_url: self.type_url@,
            config_path: self.config_path@,
            config_body: self.config_body@,
        }
    }
}

/// A number in groups of seven bits, the lowest first, each but the last marked.
pub open spec fn varint(n: nat) -> Seq<u8>
    decreases n,
{
    if n < 128 {
        seq![n as u8]
    } else {
        seq![(n % 128 + 128) as u8] + varint(n / 128)
    }
}

/// The number at the beginning of the bytes, and how many bytes it takes. A number
/// of more than `max` groups is none.
pub open spec fn parse_groups(s: Seq<u8>, max: nat) -> Option<(nat, nat)>
    decreases max,
{
    if s.len() == 0 || max == 0 {
        None
    } else if s[0] < 128 {
        Some((s[0] as nat, 1))
    } else {
        match parse_groups(s.skip(1), (max - 1) as nat) {
            Some((high, taken)) => Some(((s[0] - 128 + 128 * high) as nat, taken + 1)),
            None => None,
        }
    }
}

/// The number at the beginning of the bytes, if there is one of no more than 64
/// bits, and how many bytes it takes.
pub open spec fn parse_varint(s: Seq<u8>) -> Option<(nat, nat)> {
    match parse_groups(s, 10) {
        Some((n, taken)) => if n <= u64::MAX {
            Some((n, taken))
        } else {
            None
        },
        None => None,
    }
}

/// A text field: its number and kind, its length, and the text.
pub open spec fn text_field(number: nat, text: Seq<char>) -> Seq<u8> {
    if text.len() == 0 {
        Seq::empty()
    } else {
        varint(number * 8 + 2) + varint(encode_utf8(text).len()) + encode_utf8(text)
    }
}

/// The wire format of the options.
pub open spec fn encode(options: OptionsView) -> Seq<u8> {
    text_field(1, options.type_url) + text_field(2, options.config_path) + text_field(
        3,
        options.config_body,
    )
}

/// A field as it stands on the wire: its number, its text if it has one, and how
/// many bytes it takes.
pub struct Field {
    pub number: nat,
    pub text: Option<Seq<u8>>,
    pub taken: nat,
}

/// The field at the beginning of the bytes. There are numbers, fixed 64 bits, texts
/// and fixed 32 bits.
pub open spec fn parse_field(s: Seq<u8>) -> Option<Field> {
    match parse_varint(s) {
        None => None,
        Some((tag, head)) => {
            let number = tag / 8;
            let rest = s.skip(head as int);
            if number == 0 || tag > u32::MAX {
                None
            } else if tag % 8 == 0 {
                match parse_varint(rest) {
                    Some((_, taken)) => Some(Field { number, text: None, taken: head + taken }),
                    None => None,
                }
            } else if tag % 8 == 1 && rest.len() >= 8 {
                Some(Field { number, text: None, taken: head + 8 })
            } else if tag % 8 == 2 {
                match parse_varint(rest) {
                    Some((len, taken)) => if rest.len() - taken >= len {
                        Some(
                            Field {
                                number,
                                text: Some(rest.subrange(taken as int, (taken + len) as int)),
                                taken: head + taken + len,
                            },
                        )
                    } else {
                        None
                    },
                    None => None,
                }
            } else if tag % 8 == 5 && rest.len() >= 4 {
                Some(Field { number, text: None, taken: head + 4 })
            } else {
                None
            }
        },
    }
}

/// The options with the field put in: one of the three that they have is a text, and
/// any other field is passed over.
pub open spec fn with_field(options: OptionsView, field: Field) -> Option<OptionsView> {
    if field.number > 3 {
        Some(options)
    } else {
        match field.text {
            Some(text) => if !valid_utf8(text) {
                None
            } else if field.number == 1 {
                Some(OptionsView { type_url: decode_utf8(text), ..options })
            } else if field.number == 2 {
                Some(OptionsView { config_path: decode_utf8(text), ..options })
            } else {
                Some(OptionsView { config_body: decode_utf8(text), ..options })
            },
            None => None,
        }
    }
}

/// What reading one field after the other makes of the options.
pub open spec fn decode_onto(s: Seq<u8>, options: OptionsView) -> Option<OptionsView>
    decreases s.len(),
{
    if s.len() == 0 {
        Some(options)
    } else {
        match parse_field(s) {
            Some(field) => if 0 < field.taken <= s.len() {
                match with_field(options, field) {
                    Some(next) => decode_onto(s.skip(field.taken as int), next),
                    None => None,
                }
            } else {
                None
            },
            None => None,
        }
    }
}

/// The options that the bytes are the wire format of.
pub open spec fn decode(s: Seq<u8>) -> Option<OptionsView> {
    decode_onto(
        s,
        OptionsView {
            type_url: Seq::empty(),
            config_path: Seq::empty(),
            config_body: Seq::empty(),
        },
    )
}

/// A number takes some of the bytes that it is at the beginning of.
proof fn lemma_groups_bounds(s: Seq<u8>, max: nat)
    ensures
        parse_groups(s, max) matches Some((_, taken)) ==> 0 < taken <= s.len(),
    decreases max,
{
    if s.len() > 0 && max > 0 {
        lemma_groups_bounds(s.skip(1), (max - 1) as nat);
    }
}

/// A field takes some of the bytes that it is at the beginning of.
proof fn lemma_field_bounds(s: Seq<u8>)
    ensures
        parse_field(s) matches Some(field) ==> 0 < field.taken <= s.len(),
{
    lemma_groups_bounds(s, 10);
    if let Some((_, head)) = parse_varint(s) {
        lemma_groups_bounds(s.skip(head as int), 10);
    }
}

/// Reads a number of at most `max` groups.
fn read_groups(bytes: &Vec<u8>, pos: usize, max: u8) -> (res: Option<(u64, usize)>)
    requires
        pos <= bytes@.len(),
    ensures
        match res {
            Some((n, next)) => pos < next <= bytes@.len() && parse_groups(
                bytes@.skip(pos as int),
                max as nat,
            ) == Some((n as nat, (next - pos) as nat)),
            None => parse_groups(bytes@.skip(pos as int), max as nat) matches Some((n, _)) ==> n
                > u64::MAX,
        },
    decreases max,
{
    if pos == bytes.len() || max == 0 {
        return None;
    }
    let b: u8 = bytes[pos];
    if b < 128 {
        return Some((b as u64, pos + 1));
    }
    assert(bytes@.skip(pos as int).skip(1) =~= bytes@.skip(pos + 1));
    match read_groups(bytes, pos + 1, max - 1) {
        Some((high, next)) => {
            let low: u64 = (b - 128) as u64;
            if high > (u64::MAX - low) / 128 {
                None
            } else {
                Some((low + 128 * high, next))
            }
        },
        None => None,
    }
}

/// Reads a number.
fn read_varint(bytes: &Vec<u8>, pos: usize) -> (res: Option<(u64, usize)>)
    requires
        pos <= bytes@.len(),
    ensures
        match res {
            Some((n, next)) => pos < next <= bytes@.len() && parse_varint(bytes@.skip(pos as int))
                == Some((n as nat, (next - pos) as nat)),
            None => parse_varint(bytes@.skip(pos as int)) is None,
        },
{
    read_groups(bytes, pos, 10)
}

/// `String::from_utf8` of the standard library: the text that the bytes are the
/// UTF-8 of, if they are.
#[verifier::external_body]
fn text_from_utf8(bytes: Vec<u8>) -> (res: Option<String>)
    ensures
        match res {
            Some(text) => valid_utf8(bytes@) && text@ == decode_utf8(bytes@),
            None => !valid_utf8(bytes@),
        },
{
    String::from_utf8(bytes).ok()
}

/// The bytes from `from` up to `to`.
fn copy_range(bytes: &Vec<u8>, from: usize, to: usize) -> (res: Vec<u8>)
    requires
        from <= to <= bytes@.len(),
    ensures
        res@ == bytes@.subrange(from as int, to as int),
{
    let mut res: Vec<u8> = Vec::new();
    let mut i: usize = from;
    while i < to
        invariant
            from <= i <= to <= bytes@.len(),
            res@ =~= bytes@.subrange(from as int, i as int),
        decreases to - i,
    {
        res.push(bytes[i]);
        i = i + 1;
    }
    res
}

/// Reads a field: its number, where its text begins if it has one, and where the
/// field ends.
fn read_field(bytes: &Vec<u8>, pos: usize) -> (res: Option<(u64, Option<usize>, usize)>)
    requires
        pos <= bytes@.len(),
    ensures
        match res {
            Some((number, start, next)) => {
                &&& pos < next <= bytes@.len()
                &&& parse_field(bytes@.skip(pos as int)) matches Some(field)
                &&& field.number == number
                &&& field.taken == next - pos
                &&& match start {
                    Some(from) => pos <= from <= next && field.text == Some(
                        bytes@.subrange(from as int, next as int),
                    ),
                    None => field.text is None,
                }
            },
            None => parse_field(bytes@.skip(pos as int)) is None,
        },
{
    let (tag, at) = match read_varint(bytes, pos) {
        Some((tag, at)) => (tag, at),
        None => return None,
    };
    let number: u64 = tag / 8;
    let left: usize = bytes.len() - at;
    assert(bytes@.skip(pos as int).skip(at - pos) =~= bytes@.skip(at as int));
    if number == 0 || tag > u32::MAX as u64 {
        return None;
    }
    let kind: u64 = tag % 8;
    if kind == 0 {
        match read_varint(bytes, at) {
            Some((_, next)) => Some((number, None, next)),
            None => None,
        }
    } else if kind == 1 && left >= 8 {
        Some((number, None, at + 8))
    } else if kind == 2 {
        match read_varint(bytes, at) {
            Some((len, from)) => {
                if (bytes.len() - from) as u64 >= len {
                    let next: usize = from + len as usize;
                    assert(bytes@.skip(at as int).subrange(from - at, from - at + len)
                        =~= bytes@.subrange(from as int, next as int));
                    Some((number, Some(from), next))
                } else {
                    None
                }
            },
            None => None,
        }
    } else if kind == 5 && left >= 4 {
        Some((number, None, at + 4))
    } else {
        None
    }
}

/// Appends bytes.
fn append(out: &mut Vec<u8>, bytes: &[u8])
    ensures
        final(out)@ == old(out)@ + bytes@,
{
    let ghost before = out@;
    let mut i: usize = 0;
    while i < bytes.len()
        invariant
            i <= bytes@.len(),
            out@ =~= before + bytes@.take(i as int),
        decreases bytes@.len() - i,
    {
        out.push(bytes[i]);
        i = i + 1;
    }
    assert(bytes@.take(i as int) =~= bytes@);
}

/// Appends a number.
fn append_varint(out: &mut Vec<u8>, n: u64)
    ensures
        final(out)@ == old(out)@ + varint(n as nat),
    decreases n,
{
    if n < 128 {
        out.push(n as u8);
    } else {
        out.push((n % 128 + 128) as u8);
        append_varint(out, n / 128);
        assert(out@ =~= old(out)@ + varint(n as nat));
    }
}

/// Appends a text field.
fn append_text_field(out: &mut Vec<u8>, number: u8, text: &str)
    requires
        1 <= number <= 15,
    ensures
        final(out)@ == old(out)@ + text_field(number as nat, text@),
{
    if !text.is_empty() {
        let bytes = text.as_bytes();
        append_varint(out, number as u64 * 8 + 2);
        append_varint(out, bytes.len() as u64);
        append(out, bytes);
    }
    assert(out@ =~= old(out)@ + text_field(number as nat, text@));
}

impl Options {
    /// The wire format of the options.
    pub fn encode_to_vec(&self) -> (res: Vec<u8>)
        ensures
            res@ == encode(self@),
    {
        let mut out: Vec<u8> = Vec::new();
        append_text_field(&mut out, 1, self.type_url.as_str());
        append_text_field(&mut out, 2, self.config_path.as_str());
        append_text_field(&mut out, 3, self.config_body.as_str());
        assert(out@ =~= encode(self@));
        out
    }

    /// The options that the bytes are the wire format of, if they are.
    pub fn decode(bytes: &Vec<u8>) -> (res: Option<Options>)
        ensures
            match res {
                Some(options) => decode(bytes@) == Some(options@),
                None => decode(bytes@) is None,
            },
    {
        let mut options = Options {
            type_url: String::new(),
            config_path: String::new(),
            config_body: String::new(),
        };
        let mut pos: usize = 0;
        assert(bytes@.skip(0) =~= bytes@);
        while pos < bytes.len()
            invariant
                pos <= bytes@.len(),
                decode(bytes@) == decode_onto(bytes@.skip(pos as int), options@),
            decreases bytes@.len() - pos,
        {
            let (number, start, next) = match read_field(bytes, pos) {
                Some(field) => field,
                None => return None,
            };
            assert(bytes@.skip(pos as int).skip(next - pos) =~= bytes@.skip(next as int));
            if number <= 3 {
                let text = match start {
                    Some(from) => match text_from_utf8(copy_range(bytes, from, next)) {
                        Some(text) => text,
                        None => return None,
                    },
                    None => return None,
                };
                if number == 1 {
                    options.type_url = text;
                } else if number == 2 {
                    options.config_path = text;
                } else {
                    options.config_body = text;
                }
            }
            pos = next;
        }
        Some(options)
    }
}

/// A number that is written is of no more than `max` groups.
spec fn fits_groups(n: nat, max: nat) -> bool
    decreases max,
{
    max > 0 && (n < 128 || fits_groups(n / 128, (max - 1) as nat))
}

/// A number is read as it was written.
proof fn lemma_read_groups(n: nat, rest: Seq<u8>, max: nat)
    requires
        fits_groups(n, max),
    ensures
        parse_groups(varint(n) + rest, max) == Some((n, varint(n).len())),
    decreases max,
{
    let s = varint(n) + rest;
    if n >= 128 {
        lemma_read_groups(n / 128, rest, (max - 1) as nat);
        assert(s.skip(1) =~= varint(n / 128) + rest);
        assert(s[0] == (n % 128 + 128) as u8);
    }
}

/// A number of 64 bits is read as it was written.
proof fn lemma_read_varint(n: nat, rest: Seq<u8>)
    requires
        n <= u64::MAX,
    ensures
        parse_varint(varint(n) + rest) == Some((n, varint(n).len())),
{
    reveal_with_fuel(fits_groups, 11);
    lemma_read_groups(n, rest, 10);
}

/// A text field as it stands on the wire.
spec fn field_of(number: nat, text: Seq<char>) -> Field {
    Field {
        number,
        text: Some(encode_utf8(text)),
        taken: text_field(number, text).len(),
    }
}

/// A text field is found at the beginning of the bytes as it was written.
proof fn lemma_parse_text_field(number: nat, text: Seq<char>, rest: Seq<u8>)
    requires
        1 <= number <= 3,
        text.len() > 0,
        encode_utf8(text).len() <= u64::MAX,
    ensures
        parse_field(text_field(number, text) + rest) == Some(field_of(number, text)),
{
    let body = encode_utf8(text);
    let tag = varint(number * 8 + 2);
    let len = varint(body.len());
    let after = len + (body + rest);
    let s = text_field(number, text) + rest;
    assert(s =~= tag + after);
    assert(s.skip(tag.len() as int) =~= after);
    assert(after.subrange(len.len() as int, (len.len() + body.len()) as int) =~= body);
    lemma_read_varint(number * 8 + 2, after);
    lemma_read_varint(body.len(), body + rest);
}

/// A text field is read as it was written.
proof fn lemma_read_text_field(number: nat, text: Seq<char>, rest: Seq<u8>, options: OptionsView)
    requires
        1 <= number <= 3,
        text.len() > 0,
        encode_utf8(text).len() <= u64::MAX,
    ensures
        with_field(options, field_of(number, text)) matches Some(next) && decode_onto(
            text_field(number, text) + rest,
            options,
        ) == decode_onto(rest, next),
{
    let s = text_field(number, text) + rest;
    encode_utf8_valid_utf8(text);
    lemma_parse_text_field(number, text, rest);
    lemma_field_bounds(s);
    assert(s.skip(text_field(number, text).len() as int) =~= rest);
}

/// The options with one of their texts replaced.
spec fn with_text(options: OptionsView, number: nat, text: Seq<char>) -> OptionsView {
    if number == 1 {
        OptionsView { type_url: text, ..options }
    } else if number == 2 {
        OptionsView { config_path: text, ..options }
    } else {
        OptionsView { config_body: text, ..options }
    }
}

/// Reading a text field, which is not there where the text is empty, onto options
/// whose text is empty.
proof fn lemma_read_field_onto(
    number: nat,
    text: Seq<char>,
    rest: Seq<u8>,
    options: OptionsView,
)
    requires
        1 <= number <= 3,
        encode_utf8(text).len() <= u64::MAX,
        options == with_text(options, number, Seq::empty()),
    ensures
        decode_onto(text_field(number, text) + rest, options) == decode_onto(
            rest,
            with_text(options, number, text),
        ),
{
    if text.len() == 0 {
        assert(text =~= Seq::empty());
        assert(text_field(number, text) + rest =~= rest);
    } else {
        lemma_read_text_field(number, text, rest, options);
        encode_utf8_decode_utf8(text);
    }
}

/// Options are read as they were written.
pub proof fn law_decode_reads_what_encode_wrote(options: OptionsView)
    requires
        encode_utf8(options.type_url).len() <= u64::MAX,
        encode_utf8(options.config_path).len() <= u64::MAX,
        encode_utf8(options.config_body).len() <= u64::MAX,
    ensures
        decode(encode(options)) == Some(options),
{
    let none = OptionsView {
        type_url: Seq::empty(),
        config_path: Seq::empty(),
        config_body: Seq::empty(),
    };
    let f1 = text_field(1, options.type_url);
    let f2 = text_field(2, options.config_path);
    let f3 = text_field(3, options.config_body);
    let o1 = with_text(none, 1, options.type_url);
    let o2 = with_text(o1, 2, options.config_path);
    assert(encode(options) =~= f1 + (f2 + (f3 + Seq::empty())));
    lemma_read_field_onto(1, options.type_url, f2 + (f3 + Seq::empty()), none);
    lemma_read_field_onto(2, options.config_path, f3 + Seq::empty(), o1);
    lemma_read_field_onto(3, options.config_body, Seq::empty(), o2);
}

/// An entry whose key is a sequence of characters.
pub open spec fn entry_views(entries: Seq<(String, Option<bool>)>) -> Seq<(Seq<char>, Option<bool>)> {
    entries.map_values(|e: (String, Option<bool>)| (e.0@, e.1))
}

/// The entries at the top of a TOML document, each with its value if that is a boolean,
/// or why it is no such document.
pub uninterp spec fn toml_entries(body: Seq<char>) -> Result<
    Seq<(Seq<char>, Option<bool>)>,
    Seq<char>,
>;

/// The `FromStr` of `toml::Table`: the entries at the top of a TOML document, or the
/// text of the error where it is none. `toml::Value::as_bool` gives each value, if it is
/// a boolean.
#[verifier::external_body]
fn parse_toml(body: &str) -> (res: Result<Vec<(String, Option<bool>)>, String>)
    ensures
        match res {
            Ok(entries) => toml_entries(body@) == Ok::<Seq<(Seq<char>, Option<bool>)>, Seq<char>>(
                entry_views(entries@),
            ),
            Err(text) => toml_entries(body@) == Err::<Seq<(Seq<char>, Option<bool>)>, Seq<char>>(
                text@,
            ),
        },
{
    let table: toml::Table = match body.parse() {
        Ok(table) => table,
        Err(e) => return Err(toml::de::Error::to_string(&e)),
    };
    Ok(table.into_iter().map(|(key, value)| (key, value.as_bool())).collect())
}

/// What the first entry with a key holds.
pub open spec fn lookup(entries: Seq<(Seq<char>, Option<bool>)>, key: Seq<char>) -> Option<Option<bool>>
    decreases entries.len(),
{
    if entries.len() == 0 {
        None
    } else if entries.first().0 == key {
        Some(entries.first().1)
    } else {
        lookup(entries.drop_first(), key)
    }
}

/// What the entries configure: `SystemdCgroup` if it is a boolean, and the default if
/// it is not there.
pub open spec fn configured(entries: Seq<(Seq<char>, Option<bool>)>) -> Result<Config, ErrorView> {
    match lookup(entries, SYSTEMD_CGROUP_KEY@) {
        None => Ok(Config { systemd_cgroup: false }),
        Some(Some(b)) => Ok(Config { systemd_cgroup: b }),
        Some(None) => Err(
            ErrorView::InvalidArgument("invalid runtime options: SystemdCgroup is not a boolean"@),
        ),
    }
}

/// What runtime options configure: the default if there are none.
pub open spec fn config_of_options(value: Option<Seq<u8>>) -> Result<Config, ErrorView> {
    match value {
        None => Ok(Config { systemd_cgroup: false }),
        Some(bytes) => match decode(bytes) {
            None => Err(ErrorView::InvalidArgument("invalid runtime options: malformed message"@)),
            Some(options) => match toml_entries(options.config_body) {
                Ok(entries) => configured(entries),
                Err(text) => Err(refused_body_spec(text)),
            },
        },
    }
}

/// The error for a body that is no TOML, by the text of the parser's error.
pub open spec fn refused_body_spec(text: Seq<char>) -> ErrorView {
    ErrorView::InvalidArgument("invalid runtime options: "@ + text)
}

/// The error for a body that is no TOML, by the text of the parser's error.
pub fn refused_body(text: &str) -> (res: Error)
    ensures
        res@ == refused_body_spec(text@),
{
    Error::InvalidArgument("invalid runtime options: ".to_owned().concat(text))
}

impl Config {
    /// What the entries of a TOML document configure.
    pub fn from_entries(entries: &Vec<(String, Option<bool>)>) -> (res: Result<Config, Error>)
        ensures
            match configured(entry_views(entries@)) {
                Ok(config) => res matches Ok(c) && c == config,
                Err(error) => res matches Err(e) && e@ == error,
            },
    {
        let ghost views = entry_views(entries@);
        assert(views.skip(0) =~= views);
        let mut i: usize = 0;
        while i < entries.len()
            invariant
                i <= entries@.len(),
                views == entry_views(entries@),
                lookup(views, SYSTEMD_CGROUP_KEY@) == lookup(
                    views.skip(i as int),
                    SYSTEMD_CGROUP_KEY@,
                ),
            decreases entries@.len() - i,
        {
            assert(views.skip(i as int).first() == (entries@[i as int].0@, entries@[i as int].1));
            assert(views.skip(i as int).drop_first() =~= views.skip(i + 1));
            if text_eq(entries[i].0.as_str(), SYSTEMD_CGROUP_KEY) {
                return match entries[i].1 {
                    Some(b) => Ok(Config { systemd_cgroup: b }),
                    None => Err(
                        Error::InvalidArgument(
                            "invalid runtime options: SystemdCgroup is not a boolean".to_owned(),
                        ),
                    ),
                };
            }
            i = i + 1;
        }
        Ok(Config { systemd_cgroup: false })
    }

    /// What runtime options configure.
    pub fn get_from_options(options: Option<&Any>) -> (res: Result<Config, Error>)
        ensures
            match config_of_options(
                match options {
                    Some(any) => Some(any.value@),
                    None => None,
                },
            ) {
                Ok(config) => res matches Ok(c) && c == config,
                Err(error) => res matches Err(e) && e@ == error,
            },
    {
        let any = match options {
            Some(any) => any,
            None => return Ok(Config { systemd_cgroup: false }),
        };
        let options = match Options::decode(&any.value) {
            Some(options) => options,
            None => {
                return Err(
                    Error::InvalidArgument(
                        "invalid runtime options: malformed message".to_owned(),
                    ),
                );
            },
        };
        match parse_toml(options.config_body.as_str()) {
            Ok(entries) => Config::from_entries(&entries),
            Err(text) => Err(refused_body(text.as_str())),
        }
    }
}

/// Options that were written configure what their body says, whatever else they hold.
pub proof fn law_written_body_configures(options: OptionsView)
    requires
        encode_utf8(options.type_url).len() <= u64::MAX,
        encode_utf8(options.config_path).len() <= u64::MAX,
        encode_utf8(options.config_body).len() <= u64::MAX,
    ensures
        config_of_options(Some(encode(options))) == match toml_entries(options.config_body) {
            Ok(entries) => configured(entries),
            Err(text) => Err(refused_body_spec(text)),
        },
{
    law_decode_reads_what_encode_wrote(options);
}

/// The entry at `i` alone decides: it is the first with the key `SystemdCgroup`. Where
/// it holds a boolean, that is what is configured, whatever the entries with other keys
/// hold; where it does not, the entries are refused. Without such an entry the default is
/// configured.
pub proof fn law_systemd_cgroup_alone_decides(entries: Seq<(Seq<char>, Option<bool>)>, i: int)
    requires
        0 <= i <= entries.len(),
        forall|j: int| 0 <= j < i ==> (#[trigger] entries[j]).0 != "SystemdCgroup"@,
    ensures
        i == entries.len() ==> configured(entries) == Ok::<Config, ErrorView>(
            Config { systemd_cgroup: false },
        ),
        i < entries.len() && entries[i].0 == "SystemdCgroup"@ ==> match entries[i].1 {
            Some(b) => configured(entries) == Ok::<Config, ErrorView>(
                Config { systemd_cgroup: b },
            ),
            None => configured(entries) == Err::<Config, ErrorView>(
                ErrorView::InvalidArgument(
                    "invalid runtime options: SystemdCgroup is not a boolean"@,
                ),
            ),
        },
{
    lemma_lookup(entries, "SystemdCgroup"@, i);
}

/// What is looked up is what the first entry with the key holds.
proof fn lemma_lookup(entries: Seq<(Seq<char>, Option<bool>)>, key: Seq<char>, i: int)
    requires
        0 <= i <= entries.len(),
        forall|j: int| 0 <= j < i ==> (#[trigger] entries[j]).0 != key,
    ensures
        i == entries.len() ==> lookup(entries, key) is None,
        i < entries.len() && entries[i].0 == key ==> lookup(entries, key) == Some(entries[i].1),
    decreases i,
{
    if i > 0 {
        let rest = entries.drop_first();
        assert(forall|j: int| 0 <= j < rest.len() ==> rest[j] == entries[j + 1]);
        assert(entries.first() == entries[0]);
        lemma_lookup(rest, key, i - 1);
    }
}

/// Without options the default is configured. A message that cannot be read is refused,
/// and so is one whose body is no TOML. Otherwise the entries of the body decide.
pub proof fn law_options_are_read_or_refused(bytes: Seq<u8>)
    ensures
        config_of_options(None) == Ok::<Config, ErrorView>(Config { systemd_cgroup: false }),
        decode(bytes) is None ==> config_of_options(Some(bytes)) == Err::<Config, ErrorView>(
            ErrorView::InvalidArgument("invalid runtime options: malformed message"@),
        ),
        decode(bytes) matches Some(options) ==> match toml_entries(options.config_body) {
            Ok(entries) => config_of_options(Some(bytes)) == configured(entries),
            Err(text) => config_of_options(Some(bytes)) == Err::<Config, ErrorView>(
                ErrorView::InvalidArgument("invalid runtime options: "@ + text),
            ),
        },
{
}

/// The number that groups of seven bits stand for, the lowest first.
pub open spec fn groups_value(s: Seq<u8>) -> nat
    decreases s.len(),
{
    if s.len() == 0 {
        0
    } else {
        (s.first() % 128) as nat + 128 * groups_value(s.drop_first())
    }
}

/// The bytes are one number: each but the last is marked.
pub open spec fn is_number(s: Seq<u8>) -> bool {
    &&& s.len() > 0
    &&& s.last() < 128
    &&& forall|i: int| 0 <= i < s.len() - 1 ==> #[trigger] s[i] >= 128
}

/// A number is written in groups that stand for it, in as few as can be.
pub proof fn law_numbers_are_written_in_groups(n: nat)
    ensures
        is_number(varint(n)),
        groups_value(varint(n)) == n,
        varint(n).len() > 1 ==> varint(n).last() > 0,
    decreases n,
{
    let s = varint(n);
    if n >= 128 {
        let rest = varint(n / 128);
        law_numbers_are_written_in_groups(n / 128);
        assert(s.drop_first() =~= rest);
        assert(s.first() == (n % 128 + 128) as u8);
        assert(s.last() == rest.last());
        assert forall|i: int| 0 <= i < s.len() - 1 implies #[trigger] s[i] >= 128 by {
            if i > 0 {
                assert(s[i] == rest[i - 1]);
            }
        }
        if rest.len() == 1 {
            assert(rest.first() == rest.last());
            assert(groups_value(rest) == (rest.first() % 128) as nat + 128 * groups_value(
                rest.drop_first(),
            ));
            assert(groups_value(rest.drop_first()) == 0);
        }
    } else {
        assert(s.drop_first().len() == 0);
        assert(groups_value(s.drop_first()) == 0);
    }
}

/// A number is read from the bytes up to the first that is not marked, if these are no
/// more than ten and stand for no more than 64 bits. Otherwise there is none.
pub proof fn law_numbers_are_read_in_groups(s: Seq<u8>, len: int)
    requires
        0 < len <= s.len(),
        is_number(s.take(len)),
    ensures
        len <= 10 && groups_value(s.take(len)) <= u64::MAX ==> parse_varint(s) == Some(
            (groups_value(s.take(len)), len as nat),
        ),
        len > 10 || groups_value(s.take(len)) > u64::MAX ==> parse_varint(s) is None,
{
    lemma_parse_groups(s, len, 10);
}

proof fn lemma_parse_groups(s: Seq<u8>, len: int, max: nat)
    requires
        0 < len <= s.len(),
        is_number(s.take(len)),
    ensures
        parse_groups(s, max) == if len <= max {
            Some((groups_value(s.take(len)), len as nat))
        } else {
            None
        },
    decreases len,
{
    let t = s.take(len);
    assert(t.first() == s[0]);
    if len == 1 {
        assert(t.last() == s[0]);
        assert(t.drop_first().len() == 0);
        assert(groups_value(t.drop_first()) == 0);
    } else {
        assert(t[0] >= 128);
        let rest = s.skip(1);
        assert(rest.take(len - 1) =~= t.drop_first());
        assert(rest.take(len - 1).last() == t.last());
        assert forall|i: int| 0 <= i < len - 2 implies #[trigger] rest.take(len - 1)[i] >= 128 by {
            assert(rest.take(len - 1)[i] == t[i + 1]);
        }
        if max > 0 {
            lemma_parse_groups(rest, len - 1, (max - 1) as nat);
        }
    }
}

/// Bytes of which each is marked hold no number.
pub proof fn law_marked_bytes_are_no_number(s: Seq<u8>)
    requires
        forall|i: int| 0 <= i < s.len() ==> #[trigger] s[i] >= 128,
    ensures
        parse_varint(s) is None,
{
    lemma_no_groups(s, 10);
}

proof fn lemma_no_groups(s: Seq<u8>, max: nat)
    requires
        forall|i: int| 0 <= i < s.len() ==> #[trigger] s[i] >= 128,
    ensures
        parse_groups(s, max) is None,
    decreases max,
{
    if s.len() > 0 && max > 0 {
        assert(s[0] >= 128);
        assert forall|i: int| 0 <= i < s.skip(1).len() implies #[trigger] s.skip(1)[i] >= 128 by {
            assert(s.skip(1)[i] == s[i + 1]);
        }
        lemma_no_groups(s.skip(1), (max - 1) as nat);
    }
}

/// Options are written text by text, in their order. A text is written as its tag, the
/// length of its UTF-8 and the UTF-8; an empty text is not written.
pub proof fn law_options_are_written_text_by_text(options: OptionsView, text: Seq<char>)
    ensures
        ({
            let empty = Seq::<char>::empty();
            let (url, path, body) = (options.type_url, options.config_path, options.config_body);
            &&& encode(options) == encode(
                OptionsView { type_url: url, config_path: empty, config_body: empty },
            ) + encode(
                OptionsView { type_url: empty, config_path: path, config_body: empty },
            ) + encode(OptionsView { type_url: empty, config_path: empty, config_body: body })
            &&& encode(
                OptionsView { type_url: empty, config_path: empty, config_body: empty },
            ).len() == 0
            &&& text.len() > 0 ==> {
                let written = varint(encode_utf8(text).len()) + encode_utf8(text);
                &&& encode(
                    OptionsView { type_url: text, config_path: empty, config_body: empty },
                ) == seq![0x0au8] + written
                &&& encode(
                    OptionsView { type_url: empty, config_path: text, config_body: empty },
                ) == seq![0x12u8] + written
                &&& encode(
                    OptionsView { type_url: empty, config_path: empty, config_body: text },
                ) == seq![0x1au8] + written
            }
        }),
{
    let empty = Seq::<char>::empty();
    let (url, path, body) = (options.type_url, options.config_path, options.config_body);
    let none = OptionsView { type_url: empty, config_path: empty, config_body: empty };
    assert(encode(options) =~= encode(OptionsView { type_url: url, ..none }) + encode(
        OptionsView { config_path: path, ..none },
    ) + encode(OptionsView { config_body: body, ..none }));
    if text.len() > 0 {
        let written = varint(encode_utf8(text).len()) + encode_utf8(text);
        assert(varint(10) =~= seq![0x0au8]);
        assert(varint(18) =~= seq![0x12u8]);
        assert(varint(26) =~= seq![0x1au8]);
        assert(encode(OptionsView { type_url: text, ..none }) =~= seq![0x0au8] + written);
        assert(encode(OptionsView { config_path: text, ..none }) =~= seq![0x12u8] + written);
        assert(encode(OptionsView { config_body: text, ..none }) =~= seq![0x1au8] + written);
    }
}

/// What was read of the bytes is read all the same where others follow.
proof fn lemma_groups_go_on(a: Seq<u8>, b: Seq<u8>, max: nat)
    requires
        parse_groups(a, max) is Some,
    ensures
        parse_groups(a + b, max) == parse_groups(a, max),
    decreases max,
{
    assert((a + b)[0] == a[0]);
    if a[0] >= 128 {
        assert((a + b).skip(1) =~= a.skip(1) + b);
        lemma_groups_go_on(a.skip(1), b, (max - 1) as nat);
    }
}

/// A field is read all the same where other bytes follow.
proof fn lemma_field_goes_on(a: Seq<u8>, b: Seq<u8>)
    requires
        parse_field(a) is Some,
    ensures
        parse_field(a + b) == parse_field(a),
{
    lemma_groups_go_on(a, b, 10);
    lemma_groups_bounds(a, 10);
    let (tag, head) = parse_varint(a)->0;
    let rest = a.skip(head as int);
    assert((a + b).skip(head as int) =~= rest + b);
    if tag % 8 == 0 || tag % 8 == 2 {
        lemma_groups_go_on(rest, b, 10);
        lemma_groups_bounds(rest, 10);
        let (len, taken) = parse_varint(rest)->0;
        if tag % 8 == 2 {
            assert((rest + b).subrange(taken as int, (taken + len) as int) =~= rest.subrange(
                taken as int,
                (taken + len) as int,
            ));
        }
    }
}

/// Bytes that follow a message are read onto what the message holds.
proof fn lemma_message_goes_on(a: Seq<u8>, b: Seq<u8>, options: OptionsView)
    requires
        decode_onto(a, options) is Some,
    ensures
        decode_onto(a + b, options) == decode_onto(b, decode_onto(a, options)->0),
    decreases a.len(),
{
    if a.len() == 0 {
        assert(a + b =~= b);
    } else {
        lemma_field_goes_on(a, b);
        lemma_field_bounds(a);
        let field = parse_field(a)->0;
        let taken = field.taken as int;
        assert((a + b).skip(taken) =~= a.skip(taken) + b);
        lemma_message_goes_on(a.skip(taken), b, with_field(options, field)->0);
    }
}

/// Where a message follows another, each of its texts that is not empty takes the place
/// of the other's.
pub proof fn law_later_texts_win(first: OptionsView, second: OptionsView)
    requires
        encode_utf8(first.type_url).len() <= u64::MAX,
        encode_utf8(first.config_path).len() <= u64::MAX,
        encode_utf8(first.config_body).len() <= u64::MAX,
        encode_utf8(second.type_url).len() <= u64::MAX,
        encode_utf8(second.config_path).len() <= u64::MAX,
        encode_utf8(second.config_body).len() <= u64::MAX,
    ensures
        decode(encode(first) + encode(second)) == Some(
            OptionsView {
                type_url: if second.type_url.len() > 0 {
                    second.type_url
                } else {
                    first.type_url
                },
                config_path: if second.config_path.len() > 0 {
                    second.config_path
                } else {
                    first.config_path
                },
                config_body: if second.config_body.len() > 0 {
                    second.config_body
                } else {
                    first.config_body
                },
            },
        ),
{
    let none = OptionsView {
        type_url: Seq::empty(),
        config_path: Seq::empty(),
        config_body: Seq::empty(),
    };
    law_decode_reads_what_encode_wrote(first);
    lemma_message_goes_on(encode(first), encode(second), none);
    let f1 = text_field(1, second.type_url);
    let f2 = text_field(2, second.config_path);
    let f3 = text_field(3, second.config_body);
    let o1 = lemma_text_wins(1, second.type_url, f2 + (f3 + Seq::empty()), first);
    let o2 = lemma_text_wins(2, second.config_path, f3 + Seq::empty(), o1);
    let o3 = lemma_text_wins(3, second.config_body, Seq::empty(), o2);
    assert(encode(second) =~= f1 + (f2 + (f3 + Seq::empty())));
}

proof fn lemma_text_wins(
    number: nat,
    text: Seq<char>,
    rest: Seq<u8>,
    options: OptionsView,
) -> (res: OptionsView)
    requires
        1 <= number <= 3,
        encode_utf8(text).len() <= u64::MAX,
    ensures
        res == if text.len() > 0 {
            with_text(options, number, text)
        } else {
            options
        },
        decode_onto(text_field(number, text) + rest, options) == decode_onto(rest, res),
{
    if text.len() > 0 {
        lemma_read_text_field(number, text, rest, options);
        encode_utf8_decode_utf8(text);
        with_text(options, number, text)
    } else {
        assert(text_field(number, text) + rest =~= rest);
        options
    }
}

/// Fields that the options do not have are passed over, whatever they hold: numbers,
/// fixed 64 bits, bytes and fixed 32 bits.
pub proof fn law_unknown_fields_are_passed_over(
    number: nat,
    n: nat,
    bytes: Seq<u8>,
    rest: Seq<u8>,
)
    requires
        4 <= number <= 0x1fff_ffff,
        n <= u64::MAX,
        bytes.len() <= u64::MAX,
    ensures
        decode(varint(number * 8) + varint(n) + rest) == decode(rest),
        bytes.len() == 8 ==> decode(varint(number * 8 + 1) + bytes + rest) == decode(rest),
        decode(varint(number * 8 + 2) + varint(bytes.len()) + bytes + rest) == decode(rest),
        bytes.len() == 4 ==> decode(varint(number * 8 + 5) + bytes + rest) == decode(rest),
{
    lemma_number_is_passed_over(number, n, rest);
    if bytes.len() == 8 {
        lemma_fixed_is_passed_over(number, 1, bytes, rest);
    }
    lemma_bytes_are_passed_over(number, bytes, rest);
    if bytes.len() == 4 {
        lemma_fixed_is_passed_over(number, 5, bytes, rest);
    }
}

/// A field that the options do not have changes nothing.
proof fn lemma_field_is_passed_over(s: Seq<u8>, rest: Seq<u8>)
    requires
        s.len() > 0,
        parse_field(s) matches Some(field) && field.number > 3 && s.skip(field.taken as int) == rest,
    ensures
        decode(s) == decode(rest),
{
    lemma_field_bounds(s);
}

proof fn lemma_number_is_passed_over(number: nat, n: nat, rest: Seq<u8>)
    requires
        4 <= number <= 0x1fff_ffff,
        n <= u64::MAX,
    ensures
        decode(varint(number * 8) + varint(n) + rest) == decode(rest),
{
    let tag = number * 8;
    let s = varint(tag) + varint(n) + rest;
    assert(s =~= varint(tag) + (varint(n) + rest));
    lemma_tag_is_read(tag, varint(n) + rest);
    lemma_read_varint(n, rest);
    assert(tag / 8 == number && tag % 8 == 0);
    assert(s.skip((varint(tag).len() + varint(n).len()) as int) =~= rest);
    lemma_field_is_passed_over(s, rest);
}

proof fn lemma_fixed_is_passed_over(number: nat, kind: nat, bytes: Seq<u8>, rest: Seq<u8>)
    requires
        4 <= number <= 0x1fff_ffff,
        (kind == 1 && bytes.len() == 8) || (kind == 5 && bytes.len() == 4),
    ensures
        decode(varint(number * 8 + kind) + bytes + rest) == decode(rest),
{
    let tag = number * 8 + kind;
    let s = varint(tag) + bytes + rest;
    assert(s =~= varint(tag) + (bytes + rest));
    lemma_tag_is_read(tag, bytes + rest);
    assert(tag / 8 == number && tag % 8 == kind);
    assert(s.skip((varint(tag).len() + bytes.len()) as int) =~= rest);
    lemma_field_is_passed_over(s, rest);
}

proof fn lemma_bytes_are_passed_over(number: nat, bytes: Seq<u8>, rest: Seq<u8>)
    requires
        4 <= number <= 0x1fff_ffff,
        bytes.len() <= u64::MAX,
    ensures
        decode(varint(number * 8 + 2) + varint(bytes.len()) + bytes + rest) == decode(rest),
{
    let tag = number * 8 + 2;
    let len = varint(bytes.len());
    let s = varint(tag) + len + bytes + rest;
    assert(s =~= varint(tag) + (len + (bytes + rest)));
    lemma_tag_is_read(tag, len + (bytes + rest));
    lemma_read_varint(bytes.len(), bytes + rest);
    assert(tag / 8 == number && tag % 8 == 2);
    assert(s.skip((varint(tag).len() + len.len() + bytes.len()) as int) =~= rest);
    lemma_field_is_passed_over(s, rest);
}

/// The tag of a field is read, and the field stands behind it.
proof fn lemma_tag_is_read(tag: nat, rest: Seq<u8>)
    requires
        tag <= u64::MAX,
    ensures
        parse_varint(varint(tag) + rest) == Some((tag, varint(tag).len())),
        (varint(tag) + rest).skip(varint(tag).len() as int) == rest,
        (varint(tag) + rest).len() > 0,
{
    lemma_read_varint(tag, rest);
    lemma_groups_bounds(varint(tag) + rest, 10);
    assert((varint(tag) + rest).skip(varint(tag).len() as int) =~= rest);
}

/// A message is refused where a field has no number, is of a kind that there is not, or
/// is one of the options' own and no text; and where a text is shorter than it says, or
/// is no UTF-8.
pub proof fn law_broken_fields_are_refused(
    number: nat,
    kind: nat,
    len: nat,
    bytes: Seq<u8>,
    rest: Seq<u8>,
)
    requires
        number <= 0x1fff_ffff,
        kind < 8,
        len <= u64::MAX,
        bytes.len() <= u64::MAX,
    ensures
        number == 0 || kind == 3 || kind == 4 || kind == 6 || kind == 7 || (number <= 3 && kind
            != 2) ==> decode(varint(number * 8 + kind) + rest) is None,
        bytes.len() < len ==> decode(varint(number * 8 + 2) + varint(len) + bytes) is None,
        1 <= number <= 3 && !valid_utf8(bytes) ==> decode(
            varint(number * 8 + 2) + varint(bytes.len()) + bytes + rest,
        ) is None,
{
    lemma_kind_is_refused(number, kind, rest);
    if bytes.len() < len {
        lemma_short_text_is_refused(number, len, bytes);
    }
    if 1 <= number <= 3 && !valid_utf8(bytes) {
        lemma_broken_text_is_refused(number, bytes, rest);
    }
}

proof fn lemma_kind_is_refused(number: nat, kind: nat, rest: Seq<u8>)
    requires
        number <= 0x1fff_ffff,
        kind < 8,
    ensures
        number == 0 || kind == 3 || kind == 4 || kind == 6 || kind == 7 || (number <= 3 && kind
            != 2) ==> decode(varint(number * 8 + kind) + rest) is None,
{
    let tag = number * 8 + kind;
    let s = varint(tag) + rest;
    lemma_tag_is_read(tag, rest);
    assert(tag / 8 == number && tag % 8 == kind);
    if number == 0 || kind == 3 || kind == 4 || kind == 6 || kind == 7 {
        assert(parse_field(s) is None);
    } else if number <= 3 && kind != 2 {
        assert(parse_field(s) matches Some(field) ==> field.number == number && field.text is None);
    }
}

proof fn lemma_short_text_is_refused(number: nat, len: nat, bytes: Seq<u8>)
    requires
        number <= 0x1fff_ffff,
        bytes.len() < len <= u64::MAX,
    ensures
        decode(varint(number * 8 + 2) + varint(len) + bytes) is None,
{
    let tag = number * 8 + 2;
    let s = varint(tag) + varint(len) + bytes;
    assert(s =~= varint(tag) + (varint(len) + bytes));
    lemma_tag_is_read(tag, varint(len) + bytes);
    lemma_read_varint(len, bytes);
    assert(tag / 8 == number && tag % 8 == 2);
    assert(parse_field(s) is None);
}

proof fn lemma_broken_text_is_refused(number: nat, bytes: Seq<u8>, rest: Seq<u8>)
    requires
        1 <= number <= 3,
        bytes.len() <= u64::MAX,
        !valid_utf8(bytes),
    ensures
        decode(varint(number * 8 + 2) + varint(bytes.len()) + bytes + rest) is None,
{
    let tag = number * 8 + 2;
    let len = varint(bytes.len());
    let after = len + (bytes + rest);
    let s = varint(tag) + len + bytes + rest;
    assert(s =~= varint(tag) + after);
    lemma_tag_is_read(tag, after);
    lemma_read_varint(bytes.len(), bytes + rest);
    assert(tag / 8 == number && tag % 8 == 2);
    assert(after.subrange(len.len() as int, (len.len() + bytes.len()) as int) =~= bytes);
    assert(parse_field(s) matches Some(field) ==> field.number == number && field.text == Some(
        bytes,
    ));
}

/// A message is refused where a field is cut off, and where its tag exceeds 32 bits.
pub proof fn law_cut_off_fields_are_refused(number: nat, tag: nat, bytes: Seq<u8>)
    requires
        1 <= number <= 0x1fff_ffff,
        u32::MAX < tag <= u64::MAX,
    ensures
        decode(varint(tag) + bytes) is None,
        bytes.len() < 8 ==> decode(varint(number * 8 + 1) + bytes) is None,
        bytes.len() < 4 ==> decode(varint(number * 8 + 5) + bytes) is None,
        (forall|i: int| 0 <= i < bytes.len() ==> #[trigger] bytes[i] >= 128) ==> decode(
            varint(number * 8) + bytes,
        ) is None && decode(varint(number * 8 + 2) + bytes) is None && (bytes.len() > 0 ==> decode(
            bytes,
        ) is None),
{
    lemma_tag_is_read(tag, bytes);
    assert(parse_field(varint(tag) + bytes) is None);
    lemma_kind_is_cut_off(number, 0, bytes);
    lemma_kind_is_cut_off(number, 1, bytes);
    lemma_kind_is_cut_off(number, 2, bytes);
    lemma_kind_is_cut_off(number, 5, bytes);
    if forall|i: int| 0 <= i < bytes.len() ==> #[trigger] bytes[i] >= 128 {
        law_marked_bytes_are_no_number(bytes);
        assert(parse_field(bytes) is None);
    }
}

proof fn lemma_kind_is_cut_off(number: nat, kind: nat, bytes: Seq<u8>)
    requires
        1 <= number <= 0x1fff_ffff,
        kind < 8,
    ensures
        ({
            let s = varint(number * 8 + kind) + bytes;
            &&& kind == 1 && bytes.len() < 8 ==> decode(s) is None
            &&& kind == 5 && bytes.len() < 4 ==> decode(s) is None
            &&& (kind == 0 || kind == 2) && (forall|i: int|
                0 <= i < bytes.len() ==> #[trigger] bytes[i] >= 128) ==> decode(s) is None
        }),
{
    let tag = number * 8 + kind;
    let s = varint(tag) + bytes;
    lemma_tag_is_read(tag, bytes);
    assert(tag / 8 == number && tag % 8 == kind);
    if (kind == 1 && bytes.len() < 8) || (kind == 5 && bytes.len() < 4) {
        assert(parse_field(s) is None);
    }
    if (kind == 0 || kind == 2) && (forall|i: int|
        0 <= i < bytes.len() ==> #[trigger] bytes[i] >= 128) {
        law_marked_bytes_are_no_number(bytes);
        assert(parse_field(s) is None);
    }
}

} // verus!
