//! The command line: `serve <path> [port] [--http|--https] [-i]`, with
//! `--help` and `--version`.

use vstd::prelude::*;
use crate::text::{chars_eq_str, chars_of, decimal, digit_char};

verus! {

/// What the server is started with.
#[derive(Clone)]
pub struct Config {
    pub root: String,
    pub port: u16,
    pub https: bool,
    pub ignore_index: bool,
}

/// What the command line asks for.
pub enum Command {
    /// Print the usage text.
    Usage,
    /// Print the version.
    Version,
    /// Serve a directory.
    Serve(Config),
}

/// The port used when none is given.
pub const DEFAULT_PORT: u16 = 8000;

pub open spec fn is_digit(c: char) -> bool {
    '0' <= c <= '9'
}

/// The number written by the decimal digits `s`.
pub open spec fn digits_value(s: Seq<char>) -> nat
    decreases s.len(),
{
    if s.len() == 0 {
        0
    } else {
        digits_value(s.drop_last()) * 10 + (s.last() as nat - 48) as nat
    }
}

pub open spec fn all_digits(d: Seq<char>) -> bool {
    forall|i: int| 0 <= i < d.len() ==> is_digit(#[trigger] d[i])
}

/// The text after an optional leading `+`.
pub open spec fn port_digits(s: Seq<char>) -> Seq<char> {
    if s.len() > 0 && s[0] == '+' {
        s.drop_first()
    } else {
        s
    }
}

/// `str::parse::<u16>`: an optional `+`, then at least one ASCII digit,
/// and a value that fits in 16 bits.
pub open spec fn port_value(s: Seq<char>) -> Option<u16> {
    let d = port_digits(s);
    if d.len() == 0 || !all_digits(d) || digits_value(d) > 65535 {
        None
    } else {
        Some(digits_value(d) as u16)
    }
}

/// Reads a port number as `str::parse::<u16>` does.
pub fn parse_port(s: &str) -> (r: Option<u16>)
    ensures
        r == port_value(s@),
{
    let v = chars_of(s);
    let start: usize = if v.len() > 0 && v[0] == '+' { 1 } else { 0 };
    let ghost d = port_digits(s@);
    assert(d =~= v@.skip(start as int));
    if start == v.len() {
        return None;
    }
    let mut acc: u32 = 0;
    let mut i: usize = start;
    assert(d.take(0) =~= Seq::<char>::empty());
    while i < v.len()
        invariant
            v@ == s@,
            d == port_digits(s@),
            d == v@.skip(start as int),
            start <= i <= v.len(),
            forall|j: int| 0 <= j < i - start ==> is_digit(#[trigger] d[j]),
            acc == (if digits_value(d.take(i - start)) > 65536 { 65536 } else { digits_value(d.take(i - start)) }),
        decreases v.len() - i,
    {
        let c = v[i];
        if !('0' <= c && c <= '9') {
            assert(!is_digit(d[i - start]));
            return None;
        }
        let digit = (c as u32) - 48;
        let ghost pre = d.take(i - start);
        let ghost next = d.take(i + 1 - start);
        assert(next.drop_last() =~= pre);
        assert(next.last() == c);
        let raw = acc * 10 + digit;
        acc = if raw > 65536 { 65536 } else { raw };
        i = i + 1;
    }
    assert(d.take(v.len() - start) =~= d);
    if acc > 65535 {
        None
    } else {
        Some(acc as u16)
    }
}

/// The state built while reading the arguments after the program name:
/// the path, the port, HTTPS, and whether `index.html` is ignored.
pub open spec fn initial_options() -> (Option<Seq<char>>, u16, bool, bool) {
    (None, 8000, false, false)
}

/// One argument read: a flag sets its option; the first other argument is
/// the path; a later one that reads as a port sets the port.
pub open spec fn read_argument(st: (Option<Seq<char>>, u16, bool, bool), a: Seq<char>) -> (Option<Seq<char>>, u16, bool, bool) {
    if a == "--https"@ {
        (st.0, st.1, true, st.3)
    } else if a == "--http"@ {
        (st.0, st.1, false, st.3)
    } else if a == "-i"@ {
        (st.0, st.1, st.2, true)
    } else if st.0 is None {
        (Some(a), st.1, st.2, st.3)
    } else {
        match port_value(a) {
            Some(p) => (st.0, p, st.2, st.3),
            None => st,
        }
    }
}

pub open spec fn read_arguments(args: Seq<Seq<char>>) -> (Option<Seq<char>>, u16, bool, bool)
    decreases args.len(),
{
    if args.len() == 0 {
        initial_options()
    } else {
        read_argument(read_arguments(args.drop_last()), args.last())
    }
}

/// What the command line `args` (program name first) asks for, as a tag
/// (0 usage, 1 version, 2 serve) and the options read.
pub open spec fn command_spec(args: Seq<Seq<char>>) -> (int, (Option<Seq<char>>, u16, bool, bool)) {
    if args.len() <= 1 || args.contains("--help"@) {
        (0, initial_options())
    } else if args.contains("--version"@) {
        (1, initial_options())
    } else if read_arguments(args.skip(1)).0 is None {
        (0, read_arguments(args.skip(1)))
    } else {
        (2, read_arguments(args.skip(1)))
    }
}

/// The texts of a list of strings.
pub open spec fn strings_view(v: Seq<String>) -> Seq<Seq<char>> {
    Seq::new(v.len(), |i: int| v[i]@)
}

/// Whether some argument equals `t`.
fn any_equals(args: &Vec<String>, t: &str) -> (r: bool)
    ensures
        r == strings_view(args@).contains(t@),
{
    let mut i: usize = 0;
    while i < args.len()
        invariant
            i <= args.len(),
            forall|j: int| 0 <= j < i ==> strings_view(args@)[j] != t@,
        decreases args.len() - i,
    {
        if chars_eq_str(&chars_of(args[i].as_str()), t) {
            assert(strings_view(args@)[i as int] == t@);
            return true;
        }
        i = i + 1;
    }
    false
}

/// Reads the command line `args`, the program name first.
pub fn parse_args(args: &Vec<String>) -> (r: Command)
    ensures
        ({
            let (tag, st) = command_spec(strings_view(args@));
            match r {
                Command::Usage => tag == 0,
                Command::Version => tag == 1,
                Command::Serve(c) => tag == 2 && st.0 == Some(c.root@) && st.1 == c.port && st.2 == c.https
                    && st.3 == c.ignore_index,
            }
        }),
{
    let ghost all = strings_view(args@);
    if args.len() <= 1 || any_equals(args, "--help") {
        return Command::Usage;
    }
    if any_equals(args, "--version") {
        return Command::Version;
    }
    let mut path: Option<String> = None;
    let mut port: u16 = 8000;
    let mut https = false;
    let mut ignore_index = false;
    let ghost rest = all.skip(1);
    let mut i: usize = 1;
    assert(rest.take(0) =~= Seq::<Seq<char>>::empty());
    while i < args.len()
        invariant
            all == strings_view(args@),
            rest == all.skip(1),
            1 <= i <= args.len(),
            ({
                let st = read_arguments(rest.take(i - 1));
                &&& st.0 == (match path {
                    Some(p) => Some(p@),
                    None => None,
                })
                &&& st.1 == port
                &&& st.2 == https
                &&& st.3 == ignore_index
            }),
        decreases args.len() - i,
    {
        let a = chars_of(args[i].as_str());
        let ghost next = rest.take(i as int);
        assert(next.drop_last() =~= rest.take(i - 1));
        assert(next.last() == a@);
        if chars_eq_str(&a, "--https") {
            https = true;
        } else if chars_eq_str(&a, "--http") {
            https = false;
        } else if chars_eq_str(&a, "-i") {
            ignore_index = true;
        } else if path.is_none() {
            path = Some(args[i].clone());
        } else {
            match parse_port(args[i].as_str()) {
                Some(p) => {
                    port = p;
                },
                None => {},
            }
        }
        i = i + 1;
    }
    assert(rest.take(args.len() - 1) =~= rest);
    match path {
        None => Command::Usage,
        Some(root) => Command::Serve(Config { root, port, https, ignore_index }),
    }
}

/// The three flags; every other argument is a path or a port.
pub open spec fn is_flag(a: Seq<char>) -> bool {
    a == "--https"@ || a == "--http"@ || a == "-i"@
}

/// Without `--https` the server speaks HTTP.
pub proof fn lemma_http_by_default(args: Seq<Seq<char>>)
    requires
        !args.contains("--https"@),
    ensures
        !read_arguments(args).2,
    decreases args.len(),
{
    if args.len() > 0 {
        assert(!args.drop_last().contains("--https"@)) by {
            if args.drop_last().contains("--https"@) {
                let k = choose|k: int| 0 <= k < args.drop_last().len() && args.drop_last()[k] == "--https"@;
                assert(args[k] == "--https"@);
            }
        }
        assert(args.last() != "--https"@) by {
            if args.last() == "--https"@ {
                assert(args[args.len() - 1] == "--https"@);
            }
        }
        lemma_http_by_default(args.drop_last());
    }
}

/// `index.html` is ignored exactly when `-i` is given.
pub proof fn lemma_ignore_index_flag(args: Seq<Seq<char>>)
    ensures
        read_arguments(args).3 == args.contains("-i"@),
    decreases args.len(),
{
    reveal_strlit("-i");
    reveal_strlit("--https");
    reveal_strlit("--http");
    if args.len() > 0 {
        lemma_ignore_index_flag(args.drop_last());
        if args.drop_last().contains("-i"@) {
            let k = choose|k: int| 0 <= k < args.drop_last().len() && args.drop_last()[k] == "-i"@;
            assert(args[k] == "-i"@);
        }
        if args.contains("-i"@) && args.last() != "-i"@ {
            let k = choose|k: int| 0 <= k < args.len() && args[k] == "-i"@;
            assert(k < args.len() - 1);
            assert(args.drop_last()[k] == "-i"@);
        }
        if args.last() == "-i"@ {
            assert(args[args.len() - 1] == "-i"@);
        }
    }
}

/// When no argument reads as a port number, the port is 8000.
pub proof fn lemma_default_port(args: Seq<Seq<char>>)
    requires
        forall|i: int| 0 <= i < args.len() ==> port_value(#[trigger] args[i]) is None,
    ensures
        read_arguments(args).1 == DEFAULT_PORT,
    decreases args.len(),
{
    if args.len() > 0 {
        assert forall|i: int| 0 <= i < args.drop_last().len() implies port_value(#[trigger] args.drop_last()[i]) is None by {
            assert(args.drop_last()[i] == args[i]);
        }
        lemma_default_port(args.drop_last());
        assert(port_value(args[args.len() - 1]) is None);
    }
}

/// The path served is the first argument that is not a flag.
pub proof fn lemma_path_is_first_non_flag(args: Seq<Seq<char>>, k: int)
    requires
        0 <= k < args.len(),
        !is_flag(args[k]),
        forall|j: int| 0 <= j < k ==> is_flag(#[trigger] args[j]),
    ensures
        read_arguments(args).0 == Some(args[k]),
    decreases args.len(),
{
    if k < args.len() - 1 {
        lemma_path_is_first_non_flag(args.drop_last(), k);
        assert(args.drop_last()[k] == args[k]);
    } else {
        lemma_all_flags_no_path(args.drop_last());
        assert(args.last() == args[k]);
    }
}

/// Flags alone name no path.
pub proof fn lemma_all_flags_no_path(args: Seq<Seq<char>>)
    requires
        forall|j: int| 0 <= j < args.len() ==> is_flag(#[trigger] args[j]),
    ensures
        read_arguments(args).0 is None,
    decreases args.len(),
{
    if args.len() > 0 {
        assert forall|j: int| 0 <= j < args.drop_last().len() implies is_flag(#[trigger] args.drop_last()[j]) by {
            assert(args.drop_last()[j] == args[j]);
        }
        lemma_all_flags_no_path(args.drop_last());
        assert(is_flag(args[args.len() - 1]));
    }
}

/// Once an argument that is not a flag has been read, the path is set.
pub proof fn lemma_path_set_after_non_flag(args: Seq<Seq<char>>, k: int)
    requires
        0 <= k < args.len(),
        !is_flag(args[k]),
    ensures
        read_arguments(args).0 is Some,
    decreases args.len(),
{
    if k < args.len() - 1 {
        lemma_path_set_after_non_flag(args.drop_last(), k);
        assert(args.drop_last()[k] == args[k]);
    } else {
        assert(args.last() == args[k]);
    }
}

/// The last argument after the path that reads as a port number is the
/// port: if `args[i]` is not a flag, comes after the path, reads as the port
/// `p`, and no argument after it reads as a port, the port is `p`, for every
/// `p` from 0 to 65535.
pub proof fn lemma_last_port_wins(args: Seq<Seq<char>>, k: int, i: int, p: u16)
    requires
        0 <= k < i < args.len(),
        !is_flag(args[k]),
        !is_flag(args[i]),
        port_value(args[i]) == Some(p),
        forall|j: int| i < j < args.len() ==> is_flag(#[trigger] args[j]) || port_value(args[j]) is None,
    ensures
        read_arguments(args).1 == p,
    decreases args.len(),
{
    if i < args.len() - 1 {
        assert forall|j: int| i < j < args.drop_last().len() implies is_flag(#[trigger] args.drop_last()[j])
            || port_value(args.drop_last()[j]) is None by {
            assert(args.drop_last()[j] == args[j]);
        }
        assert(args.drop_last()[k] == args[k]);
        assert(args.drop_last()[i] == args[i]);
        lemma_last_port_wins(args.drop_last(), k, i, p);
        let last = args[args.len() - 1];
        assert(args.last() == last);
        assert(is_flag(last) || port_value(last) is None);
    } else {
        lemma_path_set_after_non_flag(args.drop_last(), k);
        assert(args.drop_last()[k] == args[k]);
        assert(args.last() == args[i]);
    }
}

proof fn lemma_decimal_digits(n: nat)
    ensures
        decimal(n).len() > 0,
        all_digits(decimal(n)),
        digits_value(decimal(n)) == n,
    decreases n,
{
    if n >= 10 {
        lemma_decimal_digits(n / 10);
        let d = decimal(n / 10);
        let t = decimal(n);
        assert(t == d.push(digit_char(n % 10)));
        assert(t.drop_last() =~= d);
        assert(digit_char(n % 10) as nat == n % 10 + 48);
        assert(n == (n / 10) * 10 + n % 10);
        assert(t.last() == digit_char(n % 10));
        assert(((t.last() as nat - 48) as nat) == n % 10);
        assert(digits_value(t) == digits_value(d) * 10 + n % 10);
        assert forall|i: int| 0 <= i < t.len() implies is_digit(#[trigger] t[i]) by {
            if i < d.len() {
                assert(t[i] == d[i]);
            }
        }
    } else {
        let t = decimal(n);
        assert(t.drop_last() =~= Seq::<char>::empty());
        assert(digit_char(n) as nat == n + 48);
        assert(t.last() == digit_char(n));
        assert(digits_value(t) == digits_value(t.drop_last()) * 10 + ((t.last() as nat - 48) as nat));
        assert(digits_value(Seq::<char>::empty()) == 0);
    }
}

/// Every port number written in decimal reads back as itself.
pub proof fn lemma_port_value_of_decimal(p: u16)
    ensures
        port_value(decimal(p as nat)) == Some(p),
{
    lemma_decimal_digits(p as nat);
    assert(is_digit(decimal(p as nat)[0]));
    assert(port_digits(decimal(p as nat)) == decimal(p as nat));
}

} // verus!
