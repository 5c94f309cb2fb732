//! Parsing of the command line of the `ajazz` tool.
use vstd::prelude::*;
use vstd::string::{StrSliceExecFns, StringExecFns};

verus! {

/// The views of a sequence of strings.
pub open spec fn string_views(v: Seq<String>) -> Seq<Seq<char>> {
    v.map_values(|s: String| s@)
}

/// `words` joined with `sep` between consecutive words.
pub open spec fn join_words(words: Seq<Seq<char>>, sep: Seq<char>) -> Seq<char>
    decreases words.len(),
{
    if words.len() == 0 {
        Seq::empty()
    } else if words.len() == 1 {
        words[0]
    } else {
        join_words(words.drop_last(), sep) + sep + words.last()
    }
}

/// Whether `s` holds the same text as `t`.
fn text_eq(s: &String, t: &str) -> (r: bool)
    ensures
        r == (s@ == t@),
{
    let t = String::from_str(t);
    *s == t
}

/// The value of a run of decimal digits.
pub open spec fn decimal_value(digits: Seq<char>) -> nat
    decreases digits.len(),
{
    if digits.len() == 0 {
        0
    } else {
        decimal_value(digits.drop_last()) * 10 + (digits.last() as nat - '0' as nat) as nat
    }
}

/// Whether `c` is an ASCII decimal digit.
pub open spec fn is_digit(c: char) -> bool {
    '0' <= c <= '9'
}

/// The digits of a decimal numeral: the text after an optional leading `+`.
pub open spec fn numeral_digits(s: Seq<char>) -> Seq<char> {
    if s.len() > 0 && s[0] == '+' {
        s.drop_first()
    } else {
        s
    }
}

/// The `u8` that `s` denotes as a decimal numeral: an optional `+`, then one or more ASCII
/// digits whose value is at most 255.
pub open spec fn spec_parse_u8(s: Seq<char>) -> Option<u8> {
    let d = numeral_digits(s);
    if d.len() > 0 && (forall|i: int| 0 <= i < d.len() ==> is_digit(#[trigger] d[i])) && decimal_value(d) <= 255 {
        Some(decimal_value(d) as u8)
    } else {
        None
    }
}

/// The message for an argument that is not a valid number.
pub open spec fn invalid_arg_message(name: Seq<char>, value: Seq<char>) -> Seq<char> {
    "invalid "@ + name + ": "@ + value
}

/// Reads a decimal `u8` from `s`.
pub fn parse_u8(s: &str) -> (r: Option<u8>)
    ensures
        r == spec_parse_u8(s@),
{
    let len = s.unicode_len();
    let mut start: usize = 0;
    if len > 0 && s.get_char(0) == '+' {
        start = 1;
    }
    let ghost d = numeral_digits(s@);
    proof {
        assert(d =~= s@.subrange(start as int, len as int));
    }
    if start == len {
        return None;
    }
    let mut acc: u32 = 0;
    let mut i: usize = start;
    while i < len
        invariant
            start <= i <= len,
            len == s@.len(),
            d == s@.subrange(start as int, len as int),
            d == numeral_digits(s@),
            forall|j: int| start <= j < i ==> is_digit(#[trigger] s@[j]),
            acc == (if decimal_value(s@.subrange(start as int, i as int)) < 256 {
                decimal_value(s@.subrange(start as int, i as int))
            } else {
                256
            }),
        decreases len - i,
    {
        let c = s.get_char(i);
        if !('0' <= c && c <= '9') {
            proof {
                assert(d[i - start] == c);
                assert(!is_digit(d[i - start]));
            }
            return None;
        }
        let digit = (c as u32) - ('0' as u32);
        let next = acc * 10 + digit;
        acc = if next < 256 {
            next
        } else {
            256
        };
        proof {
            let p = s@.subrange(start as int, i + 1);
            assert(p.drop_last() =~= s@.subrange(start as int, i as int));
            assert(p.last() == c);
        }
        i = i + 1;
    }
    proof {
        assert(s@.subrange(start as int, len as int) == d);
        assert forall|j: int| 0 <= j < d.len() implies is_digit(#[trigger] d[j]) by {
            assert(d[j] == s@[start + j]);
        }
    }
    if acc < 256 {
        Some(acc as u8)
    } else {
        None
    }
}

/// Reads the numeric argument `name` from `value`, reporting an invalid one by name.
pub fn parse_u8_arg(name: &str, value: &str) -> (r: Result<u8, String>)
    ensures
        spec_parse_u8(value@) matches Some(n) ==> r == Ok::<u8, String>(n),
        spec_parse_u8(value@) is None ==> (r matches Err(m) && m@ == invalid_arg_message(name@, value@)),
{
    match parse_u8(value) {
        Some(n) => Ok(n),
        None => {
            let mut m = String::from_str("invalid ");
            m.append(name);
            m.append(": ");
            m.append(value);
            Err(m)
        },
    }
}

/// The message for arguments left over after a complete command.
pub open spec fn unexpected_args_message(args: Seq<Seq<char>>) -> Seq<char> {
    "unexpected arguments: "@ + join_words(args, " "@)
}

/// Accepts only an empty argument list.
pub fn ensure_no_args(args: &[String]) -> (r: Result<(), String>)
    ensures
        args@.len() == 0 ==> r is Ok,
        args@.len() > 0 ==> (r matches Err(m) && m@ == unexpected_args_message(string_views(args@))),
{
    proof {
        assert(string_views(args@).skip(0) =~= string_views(args@));
    }
    ensure_no_args_from(args, 0)
}

/// Accepts only an empty argument list after position `start`.
fn ensure_no_args_from(args: &[String], start: usize) -> (r: Result<(), String>)
    requires
        start <= args@.len(),
    ensures
        args@.len() == start ==> r is Ok,
        args@.len() > start ==> (r matches Err(m) && m@ == unexpected_args_message(string_views(args@).skip(start as int))),
{
    if args.len() == start {
        return Ok(());
    }
    let mut m = String::from_str("unexpected arguments: ");
    let ghost words = string_views(args@).skip(start as int);
    let ghost head = "unexpected arguments: "@;
    m.append(args[start].as_str());
    let mut i: usize = start + 1;
    proof {
        assert(words.take(1).drop_last() =~= Seq::<Seq<char>>::empty());
        assert(words[0] == args@[start as int]@);
        assert(join_words(words.take(1), " "@) == words.take(1)[0]);
    }
    while i < args.len()
        invariant
            start + 1 <= i <= args@.len(),
            words == string_views(args@).skip(start as int),
            head == "unexpected arguments: "@,
            m@ == head + join_words(words.take(i - start), " "@),
        decreases args@.len() - i,
    {
        m.append(" ");
        m.append(args[i].as_str());
        proof {
            assert(words.take(i - start + 1).drop_last() =~= words.take(i - start));
            assert(words.take(i - start + 1).last() == args@[i as int]@);
            assert(m@ =~= head + join_words(words.take(i - start + 1), " "@));
        }
        i = i + 1;
    }
    proof {
        assert(words.take(args@.len() - start) =~= words);
    }
    Err(m)
}

/// The text of an optional string.
pub open spec fn opt_view(o: Option<String>) -> Option<Seq<char>> {
    match o {
        Some(s) => Some(s@),
        None => None,
    }
}

/// Result of reading `--serial SERIAL` options, with `found` the serial read so far.
pub open spec fn spec_parse_serial(args: Seq<Seq<char>>, found: Option<Seq<char>>) -> Result<Option<Seq<char>>, Seq<char>>
    decreases args.len(),
{
    if args.len() == 0 {
        Ok(found)
    } else if args[0] != "--serial"@ {
        Err("unexpected argument '"@ + args[0] + "'"@)
    } else if args.len() < 2 {
        Err("missing value after --serial"@)
    } else if found is Some {
        Err("--serial can only be passed once"@)
    } else {
        spec_parse_serial(args.skip(2), Some(args[1]))
    }
}

/// Reads an optional `--serial SERIAL` option, which may be given at most once, and nothing
/// else.
pub fn parse_serial_flag(args: &[String]) -> (r: Result<Option<String>, String>)
    ensures
        spec_parse_serial(string_views(args@), None) matches Ok(found) ==> (r matches Ok(v) && opt_view(v) == found),
        spec_parse_serial(string_views(args@), None) matches Err(e) ==> (r matches Err(m) && m@ == e),
{
    proof {
        assert(string_views(args@).skip(0) =~= string_views(args@));
    }
    parse_serial_from(args, 0)
}

/// Reads an optional `--serial SERIAL` option from the arguments after position `start`.
fn parse_serial_from(args: &[String], start: usize) -> (r: Result<Option<String>, String>)
    requires
        start <= args@.len(),
    ensures
        spec_parse_serial(string_views(args@).skip(start as int), None) matches Ok(found) ==> (r matches Ok(v)
            && opt_view(v) == found),
        spec_parse_serial(string_views(args@).skip(start as int), None) matches Err(e) ==> (r matches Err(m) && m@
            == e),
{
    let ghost words = string_views(args@);
    let mut serial: Option<String> = None;
    let mut i: usize = start;
    while i < args.len()
        invariant
            start <= i <= args@.len(),
            words == string_views(args@),
            spec_parse_serial(words.skip(i as int), opt_view(serial)) == spec_parse_serial(words.skip(start as int), None),
        decreases args@.len() - i,
    {
        let ghost rest = words.skip(i as int);
        proof {
            assert(rest[0] == args@[i as int]@);
        }
        if !text_eq(&args[i], "--serial") {
            let mut m = String::from_str("unexpected argument '");
            m.append(args[i].as_str());
            m.append("'");
            return Err(m);
        }
        if i + 1 >= args.len() {
            return Err(String::from_str("missing value after --serial"));
        }
        if serial.is_some() {
            return Err(String::from_str("--serial can only be passed once"));
        }
        let value = args[i + 1].clone();
        proof {
            assert(rest[1] == args@[i + 1]@);
            assert(rest.skip(2) =~= words.skip(i + 2));
        }
        serial = Some(value);
        i = i + 2;
    }
    proof {
        assert(words.skip(i as int) =~= Seq::<Seq<char>>::empty());
    }
    Ok(serial)
}

/// The usage text.
pub open spec fn spec_help() -> Seq<char> {
    "Usage:"@ + "\n"@ + "  cargo run --bin ajazz -- list"@ + "\n"@
        + "  cargo run --bin ajazz -- info [--serial SERIAL]"@ + "\n"@
        + "  cargo run --bin ajazz -- brightness <0-100> [--serial SERIAL]"@ + "\n"@
        + "  cargo run --bin ajazz -- clear-all [--serial SERIAL]"@ + "\n"@
        + "  cargo run --bin ajazz -- reset [--serial SERIAL]"@ + "\n"@
        + "  cargo run --bin ajazz -- set-logo <image-path> [--serial SERIAL]"@ + "\n"@
        + "  cargo run --bin ajazz -- set-key <key-index> <image-path> [--serial SERIAL]"@ + "\n"@
        + "  cargo run --bin ajazz -- set-all <image-path> [--serial SERIAL]"@
}

/// The usage text, one line per command.
pub fn help() -> (r: String)
    ensures
        r@ == spec_help(),
{
    let mut m = String::from_str("Usage:");
    m.append("\n");
    m.append("  cargo run --bin ajazz -- list");
    m.append("\n");
    m.append("  cargo run --bin ajazz -- info [--serial SERIAL]");
    m.append("\n");
    m.append("  cargo run --bin ajazz -- brightness <0-100> [--serial SERIAL]");
    m.append("\n");
    m.append("  cargo run --bin ajazz -- clear-all [--serial SERIAL]");
    m.append("\n");
    m.append("  cargo run --bin ajazz -- reset [--serial SERIAL]");
    m.append("\n");
    m.append("  cargo run --bin ajazz -- set-logo <image-path> [--serial SERIAL]");
    m.append("\n");
    m.append("  cargo run --bin ajazz -- set-key <key-index> <image-path> [--serial SERIAL]");
    m.append("\n");
    m.append("  cargo run --bin ajazz -- set-all <image-path> [--serial SERIAL]");
    m
}

/// A command of the `ajazz` tool.
#[derive(Debug)]
pub enum Command {
    /// List the connected devices.
    List,
    /// Describe a device.
    Info { serial: Option<String> },
    /// Set the backlight.
    Brightness { percent: u8, serial: Option<String> },
    /// Blank every key.
    ClearAll { serial: Option<String> },
    /// Full backlight and blank keys.
    Reset { serial: Option<String> },
    /// Set the boot logo from an image file.
    SetLogo { path: String, serial: Option<String> },
    /// Set one key's image from an image file.
    SetKey { key: u8, path: String, serial: Option<String> },
    /// Set every display key's image from an image file.
    SetAll { path: String, serial: Option<String> },
}

/// A command with its texts as character sequences.
pub enum CommandView {
    List,
    Info { serial: Option<Seq<char>> },
    Brightness { percent: u8, serial: Option<Seq<char>> },
    ClearAll { serial: Option<Seq<char>> },
    Reset { serial: Option<Seq<char>> },
    SetLogo { path: Seq<char>, serial: Option<Seq<char>> },
    SetKey { key: u8, path: Seq<char>, serial: Option<Seq<char>> },
    SetAll { path: Seq<char>, serial: Option<Seq<char>> },
}

impl View for Command {
    type V = CommandView;

    open spec fn view(&self) -> CommandView {
        match self {
            Command::List => CommandView::List,
            Command::Info { serial } => CommandView::Info { serial: opt_view(*serial) },
            Command::Brightness { percent, serial } => CommandView::Brightness { percent: *percent, serial: opt_view(*serial) },
            Command::ClearAll { serial } => CommandView::ClearAll { serial: opt_view(*serial) },
            Command::Reset { serial } => CommandView::Reset { serial: opt_view(*serial) },
            Command::SetLogo { path, serial } => CommandView::SetLogo { path: path@, serial: opt_view(*serial) },
            Command::SetKey { key, path, serial } => CommandView::SetKey {
                key: *key,
                path: path@,
                serial: opt_view(*serial),
            },
            Command::SetAll { path, serial } => CommandView::SetAll { path: path@, serial: opt_view(*serial) },
        }
    }
}

/// The message for an unknown command.
pub open spec fn unknown_command_message(command: Seq<char>) -> Seq<char> {
    "unknown command '"@ + command + "'\n\n"@ + spec_help()
}

/// The command that the arguments (without the program name) ask for, or the message that
/// reports why they are refused.
pub open spec fn spec_parse_command(args: Seq<Seq<char>>) -> Result<CommandView, Seq<char>> {
    if args.len() == 0 {
        Err(spec_help())
    } else {
        let command = args[0];
        let rest = args.skip(1);
        if command == "help"@ || command == "--help"@ || command == "-h"@ {
            Err(spec_help())
        } else if command == "list"@ {
            if rest.len() == 0 {
                Ok(CommandView::List)
            } else {
                Err(unexpected_args_message(rest))
            }
        } else if command == "info"@ {
            match spec_parse_serial(rest, None) {
                Ok(serial) => Ok(CommandView::Info { serial }),
                Err(e) => Err(e),
            }
        } else if command == "brightness"@ {
            if rest.len() == 0 {
                Err("missing brightness percent"@)
            } else {
                match spec_parse_u8(rest[0]) {
                    None => Err(invalid_arg_message("brightness percent"@, rest[0])),
                    Some(percent) => match spec_parse_serial(rest.skip(1), None) {
                        Ok(serial) => Ok(CommandView::Brightness { percent, serial }),
                        Err(e) => Err(e),
                    },
                }
            }
        } else if command == "clear-all"@ {
            match spec_parse_serial(rest, None) {
                Ok(serial) => Ok(CommandView::ClearAll { serial }),
                Err(e) => Err(e),
            }
        } else if command == "reset"@ {
            match spec_parse_serial(rest, None) {
                Ok(serial) => Ok(CommandView::Reset { serial }),
                Err(e) => Err(e),
            }
        } else if command == "set-logo"@ {
            if rest.len() == 0 {
                Err("missing image path"@)
            } else {
                match spec_parse_serial(rest.skip(1), None) {
                    Ok(serial) => Ok(CommandView::SetLogo { path: rest[0], serial }),
                    Err(e) => Err(e),
                }
            }
        } else if command == "set-key"@ {
            if rest.len() == 0 {
                Err("missing key index"@)
            } else if rest.len() == 1 {
                Err("missing image path"@)
            } else {
                match spec_parse_u8(rest[0]) {
                    None => Err(invalid_arg_message("key index"@, rest[0])),
                    Some(key) => match spec_parse_serial(rest.skip(2), None) {
                        Ok(serial) => Ok(CommandView::SetKey { key, path: rest[1], serial }),
                        Err(e) => Err(e),
                    },
                }
            }
        } else if command == "set-all"@ {
            if rest.len() == 0 {
                Err("missing image path"@)
            } else {
                match spec_parse_serial(rest.skip(1), None) {
                    Ok(serial) => Ok(CommandView::SetAll { path: rest[0], serial }),
                    Err(e) => Err(e),
                }
            }
        } else {
            Err(unknown_command_message(command))
        }
    }
}

/// The command that the arguments (without the program name) ask for, or the message that
/// reports why they are refused.
pub fn parse_command(args: &[String]) -> (r: Result<Command, String>)
    ensures
        spec_parse_command(string_views(args@)) matches Ok(c) ==> (r matches Ok(v) && v@ == c),
        spec_parse_command(string_views(args@)) matches Err(e) ==> (r matches Err(m) && m@ == e),
{
    let ghost words = string_views(args@);
    if args.len() == 0 {
        return Err(help());
    }
    let command = &args[0];
    proof {
        assert(words[0] == command@);
        assert(words.skip(1) =~= string_views(args@).skip(1));
        assert forall|k: int| 0 <= k < words.skip(1).len() implies #[trigger] words.skip(1)[k] == args@[k + 1]@ by {}
        if args@.len() >= 2 {
            assert(words.skip(1).skip(1) =~= string_views(args@).skip(2));
        }
    }
    if text_eq(command, "help") || text_eq(command, "--help") || text_eq(command, "-h") {
        return Err(help());
    }
    if text_eq(command, "list") {
        return match ensure_no_args_from(args, 1) {
            Ok(()) => Ok(Command::List),
            Err(e) => Err(e),
        };
    }
    if text_eq(command, "info") {
        return match parse_serial_from(args, 1) {
            Ok(serial) => Ok(Command::Info { serial }),
            Err(e) => Err(e),
        };
    }
    if text_eq(command, "brightness") {
        if args.len() < 2 {
            return Err(String::from_str("missing brightness percent"));
        }
        let percent = match parse_u8_arg("brightness percent", args[1].as_str()) {
            Ok(p) => p,
            Err(e) => return Err(e),
        };
        return match parse_serial_from(args, 2) {
            Ok(serial) => Ok(Command::Brightness { percent, serial }),
            Err(e) => Err(e),
        };
    }
    if text_eq(command, "clear-all") {
        return match parse_serial_from(args, 1) {
            Ok(serial) => Ok(Command::ClearAll { serial }),
            Err(e) => Err(e),
        };
    }
    if text_eq(command, "reset") {
        return match parse_serial_from(args, 1) {
            Ok(serial) => Ok(Command::Reset { serial }),
            Err(e) => Err(e),
        };
    }
    if text_eq(command, "set-logo") {
        if args.len() < 2 {
            return Err(String::from_str("missing image path"));
        }
        let path = args[1].clone();
        return match parse_serial_from(args, 2) {
            Ok(serial) => Ok(Command::SetLogo { path, serial }),
            Err(e) => Err(e),
        };
    }
    if text_eq(command, "set-key") {
        if args.len() < 2 {
            return Err(String::from_str("missing key index"));
        }
        if args.len() < 3 {
            return Err(String::from_str("missing image path"));
        }
        let path = args[2].clone();
        proof {
            assert(words.skip(1).skip(2) =~= string_views(args@).skip(3));
        }
        let key = match parse_u8_arg("key index", args[1].as_str()) {
            Ok(k) => k,
            Err(e) => return Err(e),
        };
        return match parse_serial_from(args, 3) {
            Ok(serial) => Ok(Command::SetKey { key, path, serial }),
            Err(e) => Err(e),
        };
    }
    if text_eq(command, "set-all") {
        if args.len() < 2 {
            return Err(String::from_str("missing image path"));
        }
        let path = args[1].clone();
        return match parse_serial_from(args, 2) {
            Ok(serial) => Ok(Command::SetAll { path, serial }),
            Err(e) => Err(e),
        };
    }
    let mut m = String::from_str("unknown command '");
    m.append(command.as_str());
    m.append("'\n\n");
    let h = help();
    m.append(h.as_str());
    Err(m)
}

/// The message for a brightness above 100 percent.
pub open spec fn brightness_range_message() -> Seq<char> {
    "brightness percent must be in the range 0..=100"@
}

/// Accepts brightness percentages from 0 to 100.
pub fn check_brightness(percent: u8) -> (r: Result<(), String>)
    ensures
        percent <= 100 ==> r is Ok,
        percent > 100 ==> (r matches Err(m) && m@ == brightness_range_message()),
{
    if percent > 100 {
        return Err(String::from_str("brightness percent must be in the range 0..=100"));
    }
    Ok(())
}

/// The `--serial` option parses only as nothing at all or as exactly `--serial SERIAL`, which
/// gives `SERIAL`.
pub proof fn lemma_parse_serial_shape(args: Seq<Seq<char>>, found: Option<Seq<char>>)
    ensures
        spec_parse_serial(args, found) matches Ok(v) ==> ((args.len() == 0 && v == found) || (args.len() == 2
            && args[0] == "--serial"@ && found is None && v == Some(args[1]))),
{
    if args.len() >= 2 && args[0] == "--serial"@ && found is None {
        let rest = args.skip(2);
        if rest.len() == 0 {
            assert(rest =~= Seq::<Seq<char>>::empty());
        } else {
            assert(spec_parse_serial(rest, Some(args[1])) is Err);
        }
    }
}

/// The serial number a command carries, for the commands that take `--serial`.
pub open spec fn command_serial(c: CommandView) -> Option<Option<Seq<char>>> {
    match c {
        CommandView::List => None,
        CommandView::Info { serial } => Some(serial),
        CommandView::Brightness { serial, .. } => Some(serial),
        CommandView::ClearAll { serial } => Some(serial),
        CommandView::Reset { serial } => Some(serial),
        CommandView::SetLogo { serial, .. } => Some(serial),
        CommandView::SetKey { serial, .. } => Some(serial),
        CommandView::SetAll { serial, .. } => Some(serial),
    }
}

/// A parsed command carries the serial number given as the trailing `--serial SERIAL`, and
/// carries one only when the command line ends that way; `list` takes no arguments at all.
pub proof fn lemma_parse_command_serial(args: Seq<Seq<char>>)
    ensures
        spec_parse_command(args) matches Ok(c) ==> {
            &&& args.len() >= 3 && args[args.len() - 2] == "--serial"@ ==> command_serial(c) == Some(
                Some(args.last()),
            )
            &&& command_serial(c) matches Some(Some(v)) ==> args.len() >= 3 && args[args.len() - 2] == "--serial"@
                && args.last() == v
            &&& c is List ==> args.len() == 1
        },
{
    if args.len() > 0 {
        let rest = args.skip(1);
        lemma_parse_serial_shape(rest, None);
        if rest.len() >= 1 {
            lemma_parse_serial_shape(rest.skip(1), None);
            assert(rest.skip(1) =~= args.skip(2));
        }
        if rest.len() >= 2 {
            lemma_parse_serial_shape(rest.skip(2), None);
            assert(rest.skip(2) =~= args.skip(3));
        }
        reveal_strlit("--serial");
        assert("--serial"@[0] == '-');
        assert(!is_digit('-'));
        if args.len() == 3 && args[1] == "--serial"@ {
            assert(numeral_digits(args[1]) == args[1]);
            assert(!is_digit(numeral_digits(args[1])[0]));
            assert(spec_parse_u8(args[1]) is None);
            assert(rest[0] == args[1]);
        }
        if rest.len() == 2 {
            assert(rest[1] == args.last() && rest[0] == args[args.len() - 2]);
        }
        if args.len() >= 3 {
            assert(args.skip(2).len() == args.len() - 2);
        }
        if args.len() >= 4 {
            assert(args.skip(3).len() == args.len() - 3);
        }
        if args.len() >= 3 && args.skip(2).len() == 2 {
            assert(args.skip(2)[1] == args.last() && args.skip(2)[0] == args[args.len() - 2]);
        }
        if args.len() >= 3 && args.skip(3).len() == 2 {
            assert(args.skip(3)[1] == args.last() && args.skip(3)[0] == args[args.len() - 2]);
        }
    }
}

/// The character of decimal digit `d`.
pub open spec fn digit_char(d: int) -> char {
    ((48 + d) as u32) as char
}

/// The usual decimal numeral of `n`, without leading zeros.
pub open spec fn u8_decimal(n: u8) -> Seq<char> {
    if n < 10 {
        seq![digit_char(n as int)]
    } else if n < 100 {
        seq![digit_char(n as int / 10), digit_char(n as int % 10)]
    } else {
        seq![digit_char(n as int / 100), digit_char((n as int / 10) % 10), digit_char(n as int % 10)]
    }
}

proof fn lemma_digit_char(d: int)
    requires
        0 <= d < 10,
    ensures
        is_digit(digit_char(d)),
        digit_char(d) as nat - '0' as nat == d,
{
    assert(digit_char(d) as u32 == 48 + d);
}

/// Every `u8` reads back from its decimal numeral, with or without a leading `+`.
pub proof fn lemma_parse_u8_roundtrip(n: u8)
    ensures
        spec_parse_u8(u8_decimal(n)) == Some(n),
        spec_parse_u8(seq!['+'] + u8_decimal(n)) == Some(n),
{
    let s = u8_decimal(n);
    let v = n as int;
    if n < 10 {
        lemma_digit_char(v);
        assert(s.drop_last() =~= Seq::<char>::empty());
        assert(decimal_value(s.drop_last()) == 0);
        assert(decimal_value(s) == v);
    } else if n < 100 {
        lemma_digit_char(v / 10);
        lemma_digit_char(v % 10);
        let a = s.drop_last();
        assert(a =~= seq![digit_char(v / 10)]);
        assert(a.drop_last() =~= Seq::<char>::empty());
        assert(decimal_value(a.drop_last()) == 0);
        assert(decimal_value(a) == v / 10);
        assert(decimal_value(s) == v);
    } else {
        lemma_digit_char(v / 100);
        lemma_digit_char((v / 10) % 10);
        lemma_digit_char(v % 10);
        let a = s.drop_last();
        let b = a.drop_last();
        assert(a =~= seq![digit_char(v / 100), digit_char((v / 10) % 10)]);
        assert(b =~= seq![digit_char(v / 100)]);
        assert(b.drop_last() =~= Seq::<char>::empty());
        assert(decimal_value(b.drop_last()) == 0);
        assert(decimal_value(b) == v / 100);
        assert(decimal_value(a) == (v / 100) * 10 + (v / 10) % 10);
        assert(decimal_value(s) == v);
    }
    assert forall|i: int| 0 <= i < s.len() implies is_digit(#[trigger] s[i]) by {
        if n < 10 {
            lemma_digit_char(v);
        } else if n < 100 {
            lemma_digit_char(v / 10);
            lemma_digit_char(v % 10);
        } else {
            lemma_digit_char(v / 100);
            lemma_digit_char((v / 10) % 10);
            lemma_digit_char(v % 10);
        }
    }
    assert(s[0] != '+');
    assert(numeral_digits(s) == s);
    let t = seq!['+'] + s;
    assert(t[0] == '+');
    assert(numeral_digits(t) =~= s);
}

/// A parsed command is the one its first argument names, and its arguments come from their
/// positions: the number after `brightness` or `set-key` is the one that argument denotes,
/// and the image path is the argument after the command (after the key for `set-key`).
pub proof fn lemma_parse_command_fields(args: Seq<Seq<char>>)
    ensures
        spec_parse_command(args) matches Ok(c) ==> {
            &&& args.len() >= 1
            &&& c is List ==> args[0] == "list"@
            &&& c is Info ==> args[0] == "info"@
            &&& c is ClearAll ==> args[0] == "clear-all"@
            &&& c is Reset ==> args[0] == "reset"@
            &&& c matches CommandView::Brightness { percent, .. } ==> args[0] == "brightness"@ && args.len() >= 2
                && spec_parse_u8(args[1]) == Some(percent)
            &&& c matches CommandView::SetKey { key, path, .. } ==> args[0] == "set-key"@ && args.len() >= 3
                && spec_parse_u8(args[1]) == Some(key) && path == args[2]
            &&& c matches CommandView::SetLogo { path, .. } ==> args[0] == "set-logo"@ && args.len() >= 2 && path
                == args[1]
            &&& c matches CommandView::SetAll { path, .. } ==> args[0] == "set-all"@ && args.len() >= 2 && path
                == args[1]
        },
{
    if args.len() >= 2 {
        assert(args.skip(1)[0] == args[1]);
    }
    if args.len() >= 3 {
        assert(args.skip(1)[1] == args[2]);
    }
}

/// The arguments that pass `serial` as a trailing `--serial SERIAL`, or none when there is none.
pub open spec fn serial_args(serial: Option<Seq<char>>) -> Seq<Seq<char>> {
    match serial {
        Some(v) => seq!["--serial"@, v],
        None => Seq::<Seq<char>>::empty(),
    }
}

proof fn lemma_serial_args_parse(serial: Option<Seq<char>>)
    ensures
        spec_parse_serial(serial_args(serial), None) == Ok::<Option<Seq<char>>, Seq<char>>(serial),
{
    if let Some(v) = serial {
        let t = serial_args(serial);
        assert(t.skip(2) =~= Seq::<Seq<char>>::empty());
        assert(spec_parse_serial(t.skip(2), Some(v)) == Ok::<Option<Seq<char>>, Seq<char>>(Some(v)));
        assert(t[0] == "--serial"@);
    } else {
        assert(serial_args(serial).len() == 0);
    }
}

/// Every well-formed command line is accepted: each command followed by its arguments, the
/// numbers written as decimal numerals, and an optional trailing `--serial SERIAL`, parses to
/// that command with those arguments and that serial number.
pub proof fn lemma_parse_command_accepts(number: u8, path: Seq<char>, serial: Option<Seq<char>>)
    ensures
        spec_parse_command(seq!["list"@]) == Ok::<CommandView, Seq<char>>(CommandView::List),
        spec_parse_command(seq!["info"@] + serial_args(serial)) == Ok::<CommandView, Seq<char>>(
            CommandView::Info { serial },
        ),
        spec_parse_command(seq!["brightness"@, u8_decimal(number)] + serial_args(serial)) == Ok::<
            CommandView,
            Seq<char>,
        >(CommandView::Brightness { percent: number, serial }),
        spec_parse_command(seq!["clear-all"@] + serial_args(serial)) == Ok::<CommandView, Seq<char>>(
            CommandView::ClearAll { serial },
        ),
        spec_parse_command(seq!["reset"@] + serial_args(serial)) == Ok::<CommandView, Seq<char>>(
            CommandView::Reset { serial },
        ),
        spec_parse_command(seq!["set-logo"@, path] + serial_args(serial)) == Ok::<CommandView, Seq<char>>(
            CommandView::SetLogo { path, serial },
        ),
        spec_parse_command(seq!["set-key"@, u8_decimal(number), path] + serial_args(serial)) == Ok::<
            CommandView,
            Seq<char>,
        >(CommandView::SetKey { key: number, path, serial }),
        spec_parse_command(seq!["set-all"@, path] + serial_args(serial)) == Ok::<CommandView, Seq<char>>(
            CommandView::SetAll { path, serial },
        ),
{
    lemma_serial_args_parse(serial);
    lemma_parse_u8_roundtrip(number);
    lemma_command_names_distinct();
    let t = serial_args(serial);
    let one = |c: Seq<char>| seq![c] + t;
    let two = |c: Seq<char>, a: Seq<char>| seq![c, a] + t;
    assert((seq!["list"@]).skip(1) =~= Seq::<Seq<char>>::empty());
    assert((seq!["list"@])[0] == "list"@);
    assert forall|c: Seq<char>| (#[trigger] one(c))[0] == c && one(c).skip(1) =~= t by {}
    assert forall|c: Seq<char>, a: Seq<char>|
        (#[trigger] two(c, a))[0] == c && two(c, a).skip(1)[0] == a && two(c, a).skip(1).skip(1) =~= t by {}
    assert(seq!["info"@] + t == one("info"@));
    assert(seq!["clear-all"@] + t == one("clear-all"@));
    assert(seq!["reset"@] + t == one("reset"@));
    assert(seq!["brightness"@, u8_decimal(number)] + t == two("brightness"@, u8_decimal(number)));
    assert(seq!["set-logo"@, path] + t == two("set-logo"@, path));
    assert(seq!["set-all"@, path] + t == two("set-all"@, path));
    let k = seq!["set-key"@, u8_decimal(number), path] + t;
    assert(k[0] == "set-key"@);
    assert(k.skip(1)[0] == u8_decimal(number));
    assert(k.skip(1)[1] == path);
    assert(k.skip(1).skip(2) =~= t);
}

proof fn lemma_command_names_distinct()
    ensures
        "list"@ != "help"@ && "list"@ != "--help"@ && "list"@ != "-h"@,
        "info"@ != "help"@ && "info"@ != "--help"@ && "info"@ != "-h"@ && "info"@ != "list"@,
        "brightness"@ != "help"@ && "brightness"@ != "--help"@ && "brightness"@ != "-h"@ && "brightness"@ != "list"@
            && "brightness"@ != "info"@,
        "clear-all"@ != "help"@ && "clear-all"@ != "--help"@ && "clear-all"@ != "-h"@ && "clear-all"@ != "list"@
            && "clear-all"@ != "info"@ && "clear-all"@ != "brightness"@,
        "reset"@ != "help"@ && "reset"@ != "--help"@ && "reset"@ != "-h"@ && "reset"@ != "list"@ && "reset"@
            != "info"@ && "reset"@ != "brightness"@ && "reset"@ != "clear-all"@,
        "set-logo"@ != "help"@ && "set-logo"@ != "--help"@ && "set-logo"@ != "-h"@ && "set-logo"@ != "list"@
            && "set-logo"@ != "info"@ && "set-logo"@ != "brightness"@ && "set-logo"@ != "clear-all"@ && "set-logo"@
            != "reset"@,
        "set-key"@ != "help"@ && "set-key"@ != "--help"@ && "set-key"@ != "-h"@ && "set-key"@ != "list"@
            && "set-key"@ != "info"@ && "set-key"@ != "brightness"@ && "set-key"@ != "clear-all"@ && "set-key"@
            != "reset"@ && "set-key"@ != "set-logo"@,
        "set-all"@ != "help"@ && "set-all"@ != "--help"@ && "set-all"@ != "-h"@ && "set-all"@ != "list"@
            && "set-all"@ != "info"@ && "set-all"@ != "brightness"@ && "set-all"@ != "clear-all"@ && "set-all"@
            != "reset"@ && "set-all"@ != "set-logo"@ && "set-all"@ != "set-key"@,
{
    reveal_strlit("help");
    reveal_strlit("--help");
    reveal_strlit("-h");
    reveal_strlit("list");
    reveal_strlit("info");
    reveal_strlit("brightness");
    reveal_strlit("clear-all");
    reveal_strlit("reset");
    reveal_strlit("set-logo");
    reveal_strlit("set-key");
    reveal_strlit("set-all");
    assert("list"@.len() == 4 && "help"@.len() == 4 && "info"@.len() == 4);
    assert("list"@[0] != "help"@[0] && "info"@[0] != "help"@[0] && "info"@[0] != "list"@[0]);
    assert("set-key"@.len() == 7 && "set-all"@.len() == 7);
    assert("set-all"@[4] != "set-key"@[4]);
    assert("brightness"@.len() == 10 && "clear-all"@.len() == 9 && "reset"@.len() == 5 && "set-logo"@.len() == 8);
    assert("--help"@.len() == 6 && "-h"@.len() == 2);
}

} // verus!
