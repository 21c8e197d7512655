//! The command line: what the arguments ask for, the port number, and the
//! text that the server prints about itself.

use vstd::prelude::*;
use crate::config::{loopback_host, private_network_allowed, scheme_of, Config};
use crate::ip::{all_dec, dec_value, is_dec_digit, octet};
use crate::text::{chars_of, is_prefix, push_char, starts_with, str_eq, views};

verus! {

/// Where the configuration comes from.
#[derive(Clone, Debug, PartialEq, Eq)]
pub enum ConfigSource {
    /// No `--config`: the defaults.
    Defaults,
    /// `--config FILE`.
    File(String),
    /// `--config` as the last argument.
    MissingPath,
}

/// What the command line asks for.
#[derive(Clone, Debug)]
pub struct CliPlan {
    /// `--help` or `-h`: print the usage and stop.
    pub help: bool,
    pub source: ConfigSource,
    /// `--host`: listen on `0.0.0.0`.
    pub public_host: bool,
    /// The port: the first argument that is not an option (the path after
    /// `--config` aside), or else the `PORT` environment variable.
    pub port: Option<String>,
    /// `--print-config`: print the configuration in effect and stop.
    pub print_config: bool,
}

pub enum SourceView {
    Defaults,
    File(Seq<char>),
    MissingPath,
}

pub open spec fn has_arg(args: Seq<Seq<char>>, a: Seq<char>) -> bool {
    exists|i: int| 0 <= i < args.len() && args[i] == a
}

/// The index of the first `--config`, and what follows it.
pub open spec fn config_source(args: Seq<Seq<char>>) -> SourceView
    decreases args.len(),
{
    if args.len() == 0 {
        SourceView::Defaults
    } else if args[0] == "--config"@ {
        if args.len() > 1 {
            SourceView::File(args[1])
        } else {
            SourceView::MissingPath
        }
    } else {
        config_source(args.drop_first())
    }
}

/// The first argument that does not start with `--`, where the argument
/// after each `--config` is skipped (`skip`: the first one is skipped).
pub open spec fn port_arg(args: Seq<Seq<char>>, skip: bool) -> Option<Seq<char>>
    decreases args.len(),
{
    if args.len() == 0 {
        None
    } else if skip {
        port_arg(args.drop_first(), false)
    } else if args[0] == "--config"@ {
        port_arg(args.drop_first(), true)
    } else if !is_prefix("--"@, args[0]) {
        Some(args[0])
    } else {
        port_arg(args.drop_first(), false)
    }
}

fn arg_present(args: &Vec<String>, a: &str) -> (r: bool)
    ensures
        r == has_arg(views(args@), a@),
{
    let mut i: usize = 0;
    while i < args.len()
        invariant
            i <= args@.len(),
            forall|j: int| 0 <= j < i ==> views(args@)[j] != a@,
        decreases args@.len() - i,
    {
        if str_eq(args[i].as_str(), a) {
            assert(views(args@)[i as int] == a@);
            return true;
        }
        i += 1;
    }
    false
}

fn find_source(args: &Vec<String>) -> (r: ConfigSource)
    ensures
        match r {
            ConfigSource::Defaults => config_source(views(args@)) is Defaults,
            ConfigSource::File(f) => config_source(views(args@)) == SourceView::File(f@),
            ConfigSource::MissingPath => config_source(views(args@)) is MissingPath,
        },
{
    let ghost a = views(args@);
    let mut i: usize = 0;
    assert(a.skip(0) == a);
    while i < args.len()
        invariant
            a == views(args@),
            i <= a.len(),
            config_source(a.skip(i as int)) == config_source(a),
        decreases a.len() - i,
    {
        assert(a.skip(i as int)[0] == a[i as int]);
        if str_eq(args[i].as_str(), "--config") {
            if i + 1 < args.len() {
                assert(a.skip(i as int)[1] == a[i + 1]);
                return ConfigSource::File(args[i + 1].clone());
            } else {
                return ConfigSource::MissingPath;
            }
        }
        assert(a.skip(i as int).drop_first() == a.skip(i + 1));
        i += 1;
    }
    assert(a.skip(i as int).len() == 0);
    ConfigSource::Defaults
}

fn find_port_arg(args: &Vec<String>) -> (r: Option<String>)
    ensures
        match r {
            Some(p) => port_arg(views(args@), false) == Some(p@),
            None => port_arg(views(args@), false) is None,
        },
{
    let ghost a = views(args@);
    let mut i: usize = 0;
    let mut skip = false;
    assert(a.skip(0) == a);
    let dashes = chars_of("--");
    while i < args.len()
        invariant
            a == views(args@),
            dashes@ == "--"@,
            i <= a.len(),
            port_arg(a.skip(i as int), skip) == port_arg(a, false),
        decreases a.len() - i,
    {
        assert(a.skip(i as int)[0] == a[i as int]);
        assert(a.skip(i as int).drop_first() == a.skip(i + 1));
        if skip {
            skip = false;
        } else if str_eq(args[i].as_str(), "--config") {
            skip = true;
        } else if !starts_with(&chars_of(args[i].as_str()), &dashes) {
            return Some(args[i].clone());
        }
        i += 1;
    }
    assert(a.skip(i as int).len() == 0);
    None
}

/// Reads the command line `args` (the program name left out) and the
/// `PORT` environment variable `env_port`.
pub fn plan_cli(args: &Vec<String>, env_port: Option<String>) -> (p: CliPlan)
    ensures
        p.help == (has_arg(views(args@), "--help"@) || has_arg(views(args@), "-h"@)),
        match p.source {
            ConfigSource::Defaults => config_source(views(args@)) is Defaults,
            ConfigSource::File(f) => config_source(views(args@)) == SourceView::File(f@),
            ConfigSource::MissingPath => config_source(views(args@)) is MissingPath,
        },
        p.public_host == has_arg(views(args@), "--host"@),
        match port_arg(views(args@), false) {
            Some(a) => p.port is Some && p.port->0@ == a,
            None => p.port == env_port,
        },
        p.print_config == has_arg(views(args@), "--print-config"@),
{
    let help = arg_present(args, "--help") || arg_present(args, "-h");
    let source = find_source(args);
    let public_host = arg_present(args, "--host");
    let port = match find_port_arg(args) {
        Some(p) => Some(p),
        None => env_port,
    };
    let print_config = arg_present(args, "--print-config");
    CliPlan { help, source, public_host, port, print_config }
}

// ---------- port numbers ----------

/// A port number as `str::parse::<u16>` reads it: an optional `+`, then
/// one or more decimal digits worth at most 65535.
pub open spec fn port_text(s: Seq<char>) -> Option<u16> {
    port_digits(strip_plus(s))
}

/// `s` without one leading `+`.
pub open spec fn strip_plus(s: Seq<char>) -> Seq<char> {
    if s.len() > 0 && s[0] == '+' {
        s.drop_first()
    } else {
        s
    }
}

/// One or more decimal digits worth at most 65535.
pub open spec fn port_digits(d: Seq<char>) -> Option<u16> {
    if d.len() > 0 && all_dec(d) && dec_value(d) <= 65535 {
        Some(dec_value(d) as u16)
    } else {
        None
    }
}

proof fn lemma_dec_value_grows(t: Seq<char>, i: int)
    requires
        0 <= i <= t.len(),
        all_dec(t),
    ensures
        dec_value(t.take(i)) <= dec_value(t),
    decreases t.len() - i,
{
    if i < t.len() {
        assert(t.take(i + 1).drop_last() == t.take(i));
        assert(is_dec_digit(t[i]));
        lemma_dec_value_grows(t, i + 1);
    } else {
        assert(t.take(i) == t);
    }
}

/// Reads a port number, as `str::parse::<u16>` does.
pub fn parse_port(s: &str) -> (r: Option<u16>)
    ensures
        r == port_text(s@),
{
    let cs = chars_of(s);
    let start: usize = if cs.len() > 0 && cs[0] == '+' {
        1
    } else {
        0
    };
    let ghost d = strip_plus(cs@);
    assert(d == cs@.skip(start as int));
    if start >= cs.len() {
        return None;
    }
    let mut v: u32 = 0;
    let mut i = start;
    while i < cs.len()
        invariant
            cs@ == s@,
            d == strip_plus(cs@),
            d.len() > 0,
            d == cs@.skip(start as int),
            start <= i <= cs@.len(),
            forall|j: int| start <= j < i ==> is_dec_digit(#[trigger] cs@[j]),
            v == dec_value(d.take(i - start)),
            v <= 65535,
        decreases cs@.len() - i,
    {
        let c = cs[i];
        if !('0' <= c && c <= '9') {
            assert(d[i - start] == c);
            assert(!all_dec(d));
            return None;
        }
        assert(d.take(i - start + 1).drop_last() == d.take(i - start));
        assert(d.take(i - start + 1).last() == c);
        v = v * 10 + ((c as u32) - ('0' as u32));
        i += 1;
        if v > 65535 {
            let ghost k = i - start;
            let mut j = i;
            while j < cs.len()
                invariant
                    start <= i <= j <= cs@.len(),
                    d == cs@.skip(start as int),
                    d == strip_plus(cs@),
                    cs@ == s@,
                    k == i - start,
                    dec_value(d.take(k)) > 65535,
                    forall|m: int| start <= m < j ==> is_dec_digit(#[trigger] cs@[m]),
                decreases cs@.len() - j,
            {
                if !('0' <= cs[j] && cs[j] <= '9') {
                    assert(d[j - start] == cs@[j as int]);
                    assert(!all_dec(d));
                    return None;
                }
                j += 1;
            }
            assert(all_dec(d)) by {
                assert forall|m: int| 0 <= m < d.len() implies is_dec_digit(#[trigger] d[m]) by {
                    assert(d[m] == cs@[start + m]);
                }
            }
            proof {
                lemma_dec_value_grows(d, k);
            }
            return None;
        }
    }
    assert(d.take(d.len() as int) == d);
    assert(all_dec(d)) by {
        assert forall|m: int| 0 <= m < d.len() implies is_dec_digit(#[trigger] d[m]) by {
            assert(d[m] == cs@[start + m]);
        }
    }
    Some(v as u16)
}

/// The decimal digit for `d` (below ten).
pub open spec fn digit_char(d: nat) -> char {
    if d == 0 {
        '0'
    } else if d == 1 {
        '1'
    } else if d == 2 {
        '2'
    } else if d == 3 {
        '3'
    } else if d == 4 {
        '4'
    } else if d == 5 {
        '5'
    } else if d == 6 {
        '6'
    } else if d == 7 {
        '7'
    } else if d == 8 {
        '8'
    } else {
        '9'
    }
}

fn digit_char_exec(d: u16) -> (c: char)
    requires
        d < 10,
    ensures
        c == digit_char(d as nat),
{
    match d {
        0 => '0',
        1 => '1',
        2 => '2',
        3 => '3',
        4 => '4',
        5 => '5',
        6 => '6',
        7 => '7',
        8 => '8',
        _ => '9',
    }
}

/// The decimal text of `n`, without leading zeros.
pub open spec fn dec_text(n: nat) -> Seq<char>
    decreases n,
{
    if n < 10 {
        seq![digit_char(n)]
    } else {
        dec_text(n / 10).push(digit_char(n % 10))
    }
}

/// Appends the decimal text of `n` to `s`.
pub fn push_decimal(s: &mut String, n: u16)
    ensures
        final(s)@ == old(s)@ + dec_text(n as nat),
    decreases n,
{
    if n >= 10 {
        push_decimal(s, n / 10);
    }
    push_char(s, digit_char_exec(n % 10));
    assert(dec_text(n as nat) == if n < 10 {
        seq![digit_char(n as nat)]
    } else {
        dec_text((n / 10) as nat).push(digit_char((n % 10) as nat))
    });
}

proof fn lemma_digit_char(d: nat)
    requires
        d < 10,
    ensures
        ((digit_char(d) as u32) - ('0' as u32)) as nat == d,
        is_dec_digit(digit_char(d)),
        digit_char(d) != '+',
{
}

proof fn lemma_dec_text(n: nat)
    ensures
        dec_text(n).len() > 0,
        all_dec(dec_text(n)),
        dec_value(dec_text(n)) == n,
        dec_text(n)[0] != '+',
    decreases n,
{
    lemma_digit_char(n % 10);
    if n >= 10 {
        lemma_dec_text(n / 10);
        let t = dec_text(n);
        assert(t.last() == digit_char(n % 10));
        assert(all_dec(t)) by {
            assert forall|i: int| 0 <= i < t.len() implies is_dec_digit(#[trigger] t[i]) by {
                if i < t.len() - 1 {
                    assert(t[i] == dec_text(n / 10)[i]);
                }
            }
        }
        assert(t.drop_last() == dec_text(n / 10));
        assert(t[0] == dec_text(n / 10)[0]);
        assert(n == (n / 10) * 10 + n % 10) by (nonlinear_arith);
        assert(dec_value(t) == dec_value(dec_text(n / 10)) * 10 + ((t.last() as u32) - ('0' as u32)) as nat);
    } else {
        assert(dec_text(n).drop_last() =~= Seq::<char>::empty());
        assert(dec_value(dec_text(n)) == dec_value(Seq::<char>::empty()) * 10 + ((dec_text(n).last() as u32) - ('0' as u32)) as nat);
    }
}

/// Writing a port number in decimal and reading it back gives the number.
pub proof fn lemma_port_round_trip(n: u16)
    ensures
        port_text(dec_text(n as nat)) == Some(n),
{
    lemma_dec_text(n as nat);
}

/// A port written in decimal reads back as itself up to 65535, also after
/// a `+`, and is refused above; text with a character that is not a digit
/// (a single leading `+` aside) is refused, and so is text without digits.
pub proof fn lemma_port_text_exact(n: nat, s: Seq<char>)
    ensures
        n <= 65535 ==> port_text(dec_text(n)) == Some(n as u16) && port_text(seq!['+'] + dec_text(n))
            == Some(n as u16),
        n > 65535 ==> port_text(dec_text(n)) is None && port_text(seq!['+'] + dec_text(n)) is None,
        (exists|i: int| 0 <= i < s.len() && !(i == 0 && s[i] == '+') && !('0' <= #[trigger] s[i] && s[i] <= '9'))
            ==> port_text(s) is None,
        s.len() == 0 || s == seq!['+'] ==> port_text(s) is None,
{
    lemma_dec_text(n);
    assert((seq!['+'] + dec_text(n)).drop_first() =~= dec_text(n));
    if exists|i: int| 0 <= i < s.len() && !(i == 0 && s[i] == '+') && !('0' <= #[trigger] s[i] && s[i] <= '9') {
        let i = choose|i: int| 0 <= i < s.len() && !(i == 0 && s[i] == '+') && !('0' <= #[trigger] s[i] && s[i] <= '9');
        let d = strip_plus(s);
        if s.len() > 0 && s[0] == '+' {
            assert(d[i - 1] == s[i]);
        } else {
            assert(d[i] == s[i]);
        }
    }
    if s == seq!['+'] {
        assert(strip_plus(s).len() == 0);
    }
}

/// An IPv4 octet written in decimal reads back as itself up to 255 and is
/// refused above; a multi-digit octet with a leading zero is refused.
pub proof fn lemma_octet_exact(n: nat, t: Seq<char>)
    ensures
        n <= 255 ==> octet(dec_text(n)) == Some(n as u8),
        n > 255 ==> octet(dec_text(n)) is None,
        t.len() > 0 ==> octet(seq!['0'] + t) is None,
{
    lemma_dec_text(n);
    if n >= 1000 {
        lemma_dec_len(n);
    }
    lemma_dec_short(n);
}

proof fn lemma_dec_short(n: nat)
    ensures
        n < 10 ==> dec_text(n).len() == 1,
        n < 100 ==> dec_text(n).len() <= 2,
        n < 1000 ==> dec_text(n).len() <= 3,
        n >= 10 ==> dec_text(n)[0] != '0',
    decreases n,
{
    if n >= 10 {
        lemma_dec_short(n / 10);
        if n / 10 < 10 {
            assert(dec_text(n / 10) == seq![digit_char(n / 10)]);
            assert(digit_char(n / 10) != '0');
        }
        assert(dec_text(n)[0] == dec_text(n / 10)[0]);
    }
}

proof fn lemma_dec_len(n: nat)
    requires
        n >= 1000,
    ensures
        dec_text(n).len() > 3,
    decreases n,
{
    if n / 10 >= 1000 {
        lemma_dec_len(n / 10);
    } else {
        assert(dec_text(n / 10).len() >= 3) by {
            assert(n / 10 >= 100);
            assert(n / 100 >= 10);
            assert(dec_text(n / 100).len() >= 2) by {
                assert(dec_text(n / 1000).len() >= 1);
            }
        }
    }
}

/// Why the command line cannot be applied.
#[derive(Clone, Copy, Debug, PartialEq, Eq)]
pub enum CliError {
    /// The port is not a number from 0 to 65535.
    InvalidPort,
}

/// Applies the command line to the configuration: `--host` listens on
/// `0.0.0.0`; the port, when there is one, must be a valid port number.
pub fn apply_cli(cfg: &mut Config, plan: &CliPlan) -> (r: Result<(), CliError>)
    ensures
        final(cfg).upstream == old(cfg).upstream,
        final(cfg).headers == old(cfg).headers,
        final(cfg).limits == old(cfg).limits,
        final(cfg).server.tls == old(cfg).server.tls,
        final(cfg).server.host@ == if plan.public_host {
            "0.0.0.0"@
        } else {
            old(cfg).server.host@
        },
        match plan.port {
            None => r is Ok && final(cfg).server.port == old(cfg).server.port,
            Some(p) => match port_text(p@) {
                Some(n) => r is Ok && final(cfg).server.port == n,
                None => r == Err::<(), CliError>(CliError::InvalidPort),
            },
        },
{
    if plan.public_host {
        cfg.server.host = "0.0.0.0".to_owned();
    }
    match &plan.port {
        None => Ok(()),
        Some(p) => match parse_port(p.as_str()) {
            Some(n) => {
                cfg.server.port = n;
                Ok(())
            },
            None => Err(CliError::InvalidPort),
        },
    }
}

// ---------- what the server prints ----------

/// A network interface of the machine and one of its addresses, as text.
#[derive(Clone, Debug)]
pub struct Interface {
    pub name: String,
    pub address: String,
    pub is_v6: bool,
}

/// `scheme://host:port`.
pub open spec fn url_text(scheme: Seq<char>, host: Seq<char>, port: u16) -> Seq<char> {
    scheme + "://"@ + host + ":"@ + dec_text(port as nat)
}

fn url_string(scheme: &str, host: &str, port: u16) -> (r: String)
    ensures
        r@ == url_text(scheme@, host@, port),
{
    let mut s = scheme.to_owned();
    s.append("://");
    s.append(host);
    s.append(":");
    push_decimal(&mut s, port);
    s
}

/// The line for one interface: a bracketed host for IPv6.
pub open spec fn interface_line(scheme: Seq<char>, i: Interface, port: u16) -> Seq<char> {
    let host = if i.is_v6 {
        "["@ + i.address@ + "]"@
    } else {
        i.address@
    };
    "\t- "@ + i.name@ + "\t\t\t"@ + url_text(scheme, host, port)
}

/// The lines printed at start: where the server listens; a warning when
/// private-network upstreams are allowed; then, on a loopback host, the
/// local address to open, and otherwise one line per interface address
/// (none when they could not be listed).
pub open spec fn banner(c: Config, scheme: Seq<char>, interfaces: Option<Seq<Interface>>) -> Seq<Seq<char>> {
    let head = seq!["Listening on "@ + url_text(scheme, c.server.host@, c.server.port)];
    let warn = if private_network_allowed(c) {
        seq!["\t! private-network upstreams are ALLOWED"@]
    } else {
        seq![]
    };
    let tail = if !loopback_host(c.server.host@) {
        match interfaces {
            Some(list) => list.map_values(|i: Interface| interface_line(scheme, i, c.server.port)),
            None => seq![],
        }
    } else {
        seq!["\t- Access:\t\t"@ + url_text(scheme, "127.0.0.1"@, c.server.port)]
    };
    head + warn + tail
}

/// The lines printed at start, given the machine's interface addresses
/// (`None` when they could not be listed).
pub fn banner_lines(cfg: &Config, interfaces: &Option<Vec<Interface>>) -> (r: Vec<String>)
    ensures
        views(r@) == banner(
            *cfg,
            scheme_of(*cfg),
            match interfaces {
                Some(l) => Some(l@),
                None => None,
            },
        ),
{
    let scheme = cfg.scheme();
    let port = cfg.server.port;
    let mut lines: Vec<String> = Vec::new();
    let mut first = "Listening on ".to_owned();
    first.append(url_string(scheme, cfg.server.host.as_str(), port).as_str());
    lines.push(first);
    if cfg.allow_private_network() {
        lines.push("\t! private-network upstreams are ALLOWED".to_owned());
    }
    let ghost before = views(lines@);
    if !cfg.listens_on_loopback() {
        match interfaces {
            Some(list) => {
                let ghost want = list@.map_values(|i: Interface| interface_line(scheme@, i, port));
                let mut k: usize = 0;
                while k < list.len()
                    invariant
                        k <= list@.len(),
                        want == list@.map_values(|i: Interface| interface_line(scheme@, i, port)),
                        views(lines@) == before + want.take(k as int),
                    decreases list@.len() - k,
                {
                    let it = &list[k];
                    let host = if it.is_v6 {
                        let mut h = "[".to_owned();
                        h.append(it.address.as_str());
                        h.append("]");
                        h
                    } else {
                        it.address.clone()
                    };
                    let mut line = "\t- ".to_owned();
                    line.append(it.name.as_str());
                    line.append("\t\t\t");
                    line.append(url_string(scheme, host.as_str(), port).as_str());
                    let ghost l0 = views(lines@);
                    lines.push(line);
                    assert(views(lines@) =~= l0.push(want[k as int]));
                    assert(want.take(k + 1) =~= want.take(k as int).push(want[k as int]));
                    k += 1;
                }
                assert(want.take(list@.len() as int) == want);
            },
            None => {
                assert(views(lines@) =~= before + Seq::<Seq<char>>::empty());
            },
        }
    } else {
        let mut line = "\t- Access:\t\t".to_owned();
        line.append(url_string(scheme, "127.0.0.1", port).as_str());
        let ghost l0 = views(lines@);
        lines.push(line);
        assert(views(lines@) =~= l0.push(line@));
    }
    assert(views(lines@) =~= banner(
        *cfg,
        scheme@,
        match interfaces {
            Some(l) => Some(l@),
            None => None,
        },
    ));
    lines
}

/// The comment lines printed above the configuration by `--print-config`.
pub open spec fn config_preamble_text(c: Config) -> Seq<char> {
    "# panopticon 配置。省略的字段使用默认值。\n"@
        + "# [upstream] allow_private_network 未设置时：监听回环地址则为 true，否则为 false。\n"@
        + "# 当前生效值："@ + (if private_network_allowed(c) {
        "true"@
    } else {
        "false"@
    }) + "\n\n"@
}

/// The comment lines printed above the configuration by `--print-config`,
/// ending with the private-network setting in effect.
pub fn config_preamble(cfg: &Config) -> (r: String)
    ensures
        r@ == config_preamble_text(*cfg),
{
    let mut s = "# panopticon 配置。省略的字段使用默认值。\n".to_owned();
    s.append("# [upstream] allow_private_network 未设置时：监听回环地址则为 true，否则为 false。\n");
    s.append("# 当前生效值：");
    s.append(
        if cfg.allow_private_network() {
            "true"
        } else {
            "false"
        },
    );
    s.append("\n\n");
    s
}

} // verus!
