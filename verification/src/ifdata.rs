//! `ifdata`: which queries there are, what each one answers from what the
//! system reports about an interface, and how the answers are written.
use vstd::prelude::*;
use crate::text::{
    after_first, before_first, chars_of, decimal, fields, parse_int, parse_int_spec, push_decimal,
    push_signed_decimal, same_chars, signed_decimal, split_fields, split_lines, split_once,
    string_from_chars, text_lines, trim_chars, trim_ws, views_of, Sep,
};

verus! {

broadcast use vstd::seq::group_seq_axioms;

/// Number of commands `ifdata` knows.
pub const N_COMMANDS: usize = 29;

/// The name of command `k`.
pub open spec fn command_name(k: int) -> Seq<char> {
    if k == 0 { "-e"@ } else if k == 1 { "-p"@ } else if k == 2 { "-pe"@ } else if k == 3 { "-pa"@ }
    else if k == 4 { "-pn"@ } else if k == 5 { "-pN"@ } else if k == 6 { "-pb"@ } else if k == 7 { "-pm"@ }
    else if k == 8 { "-ph"@ } else if k == 9 { "-pf"@ } else if k == 10 { "-si"@ } else if k == 11 { "-sip"@ }
    else if k == 12 { "-sib"@ } else if k == 13 { "-sie"@ } else if k == 14 { "-sid"@ } else if k == 15 { "-sif"@ }
    else if k == 16 { "-sic"@ } else if k == 17 { "-sim"@ } else if k == 18 { "-so"@ } else if k == 19 { "-sop"@ }
    else if k == 20 { "-sob"@ } else if k == 21 { "-soe"@ } else if k == 22 { "-sod"@ } else if k == 23 { "-sof"@ }
    else if k == 24 { "-sox"@ } else if k == 25 { "-soc"@ } else if k == 26 { "-som"@ } else if k == 27 { "-bips"@ }
    else { "-bops"@ }
}

/// The description of command `k` in the usage text.
pub open spec fn command_desc(k: int) -> Seq<char> {
    if k == 0 { "Reports interface existence via return code"@ }
    else if k == 1 { "Print out the whole config of iface"@ }
    else if k == 2 { "Print out yes or no according to existence"@ }
    else if k == 3 { "Print out the address"@ }
    else if k == 4 { "Print netmask"@ }
    else if k == 5 { "Print network address"@ }
    else if k == 6 { "Print broadcast"@ }
    else if k == 7 { "Print mtu"@ }
    else if k == 8 { "Print out the hardware address"@ }
    else if k == 9 { "Print flags"@ }
    else if k == 10 { "Print all statistics on input"@ }
    else if k == 11 { "Print # of in packets"@ }
    else if k == 12 { "Print # of in bytes"@ }
    else if k == 13 { "Print # of in errors"@ }
    else if k == 14 { "Print # of in drops"@ }
    else if k == 15 { "Print # of in fifo overruns"@ }
    else if k == 16 { "Print # of in compress"@ }
    else if k == 17 { "Print # of in multicast"@ }
    else if k == 18 { "Print all statistics on output"@ }
    else if k == 19 { "Print # of out packets"@ }
    else if k == 20 { "Print # of out bytes"@ }
    else if k == 21 { "Print # of out errors"@ }
    else if k == 22 { "Print # of out drops"@ }
    else if k == 23 { "Print # of out fifo overruns"@ }
    else if k == 24 { "Print # of out collisions"@ }
    else if k == 25 { "Print # of out carrier loss"@ }
    else if k == 26 { "Print # of out multicast"@ }
    else if k == 27 { "Print # of incoming bytes per second"@ }
    else { "Print # of outgoing bytes per second"@ }
}

fn command_entry(k: usize) -> (r: (&'static str, &'static str))
    requires
        k < N_COMMANDS,
    ensures
        r.0@ == command_name(k as int),
        r.1@ == command_desc(k as int),
{
    match k {
        0 => ("-e", "Reports interface existence via return code"),
        1 => ("-p", "Print out the whole config of iface"),
        2 => ("-pe", "Print out yes or no according to existence"),
        3 => ("-pa", "Print out the address"),
        4 => ("-pn", "Print netmask"),
        5 => ("-pN", "Print network address"),
        6 => ("-pb", "Print broadcast"),
        7 => ("-pm", "Print mtu"),
        8 => ("-ph", "Print out the hardware address"),
        9 => ("-pf", "Print flags"),
        10 => ("-si", "Print all statistics on input"),
        11 => ("-sip", "Print # of in packets"),
        12 => ("-sib", "Print # of in bytes"),
        13 => ("-sie", "Print # of in errors"),
        14 => ("-sid", "Print # of in drops"),
        15 => ("-sif", "Print # of in fifo overruns"),
        16 => ("-sic", "Print # of in compress"),
        17 => ("-sim", "Print # of in multicast"),
        18 => ("-so", "Print all statistics on output"),
        19 => ("-sop", "Print # of out packets"),
        20 => ("-sob", "Print # of out bytes"),
        21 => ("-soe", "Print # of out errors"),
        22 => ("-sod", "Print # of out drops"),
        23 => ("-sof", "Print # of out fifo overruns"),
        24 => ("-sox", "Print # of out collisions"),
        25 => ("-soc", "Print # of out carrier loss"),
        26 => ("-som", "Print # of out multicast"),
        27 => ("-bips", "Print # of incoming bytes per second"),
        _ => ("-bops", "Print # of outgoing bytes per second"),
    }
}

/// The first command from `k` on that is named `opt`.
pub open spec fn find_command(opt: Seq<char>, k: int) -> Option<int>
    decreases 29 - k,
{
    if k >= 29 || k < 0 {
        None
    } else if command_name(k) == opt {
        Some(k)
    } else {
        find_command(opt, k + 1)
    }
}

/// The index of the command named `opt`.
pub fn command_index(opt: &str) -> (r: Option<usize>)
    ensures
        match r {
            Some(k) => find_command(opt@, 0) == Some(k as int),
            None => find_command(opt@, 0) is None,
        },
{
    let o = chars_of(opt);
    let mut k: usize = 0;
    while k < N_COMMANDS
        invariant
            k <= 29,
            o@ == opt@,
            find_command(opt@, 0) == find_command(opt@, k as int),
        decreases 29 - k,
    {
        let (name, _) = command_entry(k);
        let n = chars_of(name);
        if same_chars(o.as_slice(), n.as_slice()) {
            return Some(k);
        }
        k += 1;
    }
    None
}

/// Whether `opt` is a command of `ifdata`.
pub fn is_command(opt: &str) -> (r: bool)
    ensures
        r == find_command(opt@, 0) is Some,
{
    command_index(opt).is_some()
}

/// Whether `opt` asks for statistics or a rate (`-si..`, `-so..`, `-bips`,
/// `-bops`).
pub open spec fn stats_or_rate_spec(opt: Seq<char>) -> bool {
    ||| (opt.len() >= 3 && opt[0] == '-' && opt[1] == 's' && opt[2] == 'i')
    ||| (opt.len() >= 3 && opt[0] == '-' && opt[1] == 's' && opt[2] == 'o')
    ||| opt == "-bips"@
    ||| opt == "-bops"@
}

pub fn is_stats_or_rate(opt: &str) -> (r: bool)
    ensures
        r == stats_or_rate_spec(opt@),
{
    let o = chars_of(opt);
    let n = o.len();
    let prefixed = n >= 3 && o[0] == '-' && o[1] == 's' && (o[2] == 'i' || o[2] == 'o');
    let bips = chars_of("-bips");
    let bops = chars_of("-bops");
    prefixed || same_chars(o.as_slice(), bips.as_slice()) || same_chars(o.as_slice(), bops.as_slice())
}

/// Right-aligns `s` in five columns (`{:>5}`).
pub open spec fn pad5(s: Seq<char>) -> Seq<char> {
    if s.len() < 5 {
        Seq::new((5 - s.len()) as nat, |i: int| ' ') + s
    } else {
        s
    }
}

/// The lines of the usage text for the first `k` commands.
pub open spec fn usage_lines(k: int) -> Seq<char>
    decreases k,
{
    if k <= 0 {
        Seq::empty()
    } else {
        usage_lines(k - 1) + "  "@ + pad5(command_name(k - 1)) + "   "@ + command_desc(k - 1) + seq!['\n']
    }
}

/// The usage text that `ifdata` writes to standard error.
pub open spec fn usage_spec() -> Seq<char> {
    "Usage: /bin/ifdata [options] iface\n"@ + usage_lines(29)
}

fn push_str(out: &mut Vec<char>, s: &str)
    ensures
        final(out)@ == old(out)@ + s@,
{
    let c = chars_of(s);
    let mut i: usize = 0;
    let ghost start = out@;
    while i < c.len()
        invariant
            i <= c@.len(),
            c@ == s@,
            out@ == start + c@.take(i as int),
        decreases c@.len() - i,
    {
        out.push(c[i]);
        i += 1;
        assert(c@.take(i as int) =~= c@.take(i - 1).push(c@[i - 1]));
    }
    assert(c@.take(c@.len() as int) =~= c@);
}

pub fn usage_text() -> (r: String)
    ensures
        r@ == usage_spec(),
{
    let mut out: Vec<char> = Vec::new();
    push_str(&mut out, "Usage: /bin/ifdata [options] iface\n");
    let ghost head = out@;
    let mut k: usize = 0;
    while k < N_COMMANDS
        invariant
            k <= 29,
            out@ == head + usage_lines(k as int),
        decreases 29 - k,
    {
        let (name, desc) = command_entry(k);
        let ghost before = out@;
        push_str(&mut out, "  ");
        let n = chars_of(name);
        let mut p: usize = 0;
        let pad: usize = if n.len() < 5 {
            5 - n.len()
        } else {
            0
        };
        while p < pad
            invariant
                p <= pad,
                out@ == before + "  "@ + Seq::new(p as nat, |i: int| ' '),
            decreases pad - p,
        {
            out.push(' ');
            p += 1;
            assert(Seq::new(p as nat, |i: int| ' ') =~= Seq::new((p - 1) as nat, |i: int| ' ').push(' '));
        }
        push_str(&mut out, name);
        assert(Seq::new(pad as nat, |i: int| ' ') + name@ =~= pad5(command_name(k as int)));
        push_str(&mut out, "   ");
        push_str(&mut out, desc);
        out.push('\n');
        assert(out@ =~= head + usage_lines(k + 1));
        k += 1;
    }
    string_from_chars(out.as_slice())
}

// ---------------------------------------------------------------------------
// Arguments
// ---------------------------------------------------------------------------

/// What the arguments ask for.
#[derive(Clone, Copy, Debug, PartialEq, Eq, Structural)]
pub enum ArgCheck {
    /// The usage text, exit status 1.
    Usage,
    /// Nothing at all, exit status 0.
    Nothing,
    /// Run the commands before the last argument on the interface it names.
    Run,
}

pub open spec fn check_args_spec(args: Seq<Seq<char>>) -> ArgCheck {
    if args.len() == 0 {
        ArgCheck::Usage
    } else if args.len() == 1 && !(args[0].len() > 0 && args[0][0] == '-') {
        ArgCheck::Nothing
    } else if args.len() < 2 {
        ArgCheck::Usage
    } else if exists|i: int| 0 <= i < args.len() - 1 && #[trigger] find_command(args[i], 0) is None {
        ArgCheck::Usage
    } else {
        ArgCheck::Run
    }
}

pub open spec fn views_of_strings(v: Seq<String>) -> Seq<Seq<char>> {
    v.map_values(|s: String| s@)
}

/// Checks the arguments (without the program name).
pub fn check_args(args: &[String]) -> (r: ArgCheck)
    ensures
        r == check_args_spec(views_of_strings(args@)),
{
    let ghost a = views_of_strings(args@);
    let n = args.len();
    if n == 0 {
        return ArgCheck::Usage;
    }
    if n == 1 {
        let c = chars_of(args[0].as_str());
        assert(c@ == a[0]);
        if !(c.len() > 0 && c[0] == '-') {
            return ArgCheck::Nothing;
        }
        return ArgCheck::Usage;
    }
    let mut i: usize = 0;
    while i < n - 1
        invariant
            2 <= n == args@.len(),
            i <= n - 1,
            a == views_of_strings(args@),
            forall|j: int| 0 <= j < i ==> #[trigger] find_command(a[j], 0) is Some,
        decreases n - 1 - i,
    {
        assert(args@[i as int]@ == a[i as int]);
        if !is_command(args[i].as_str()) {
            return ArgCheck::Usage;
        }
        i += 1;
    }
    ArgCheck::Run
}

// ---------------------------------------------------------------------------
// Interfaces
// ---------------------------------------------------------------------------

/// An IPv4 address, by its four octets.
#[derive(Clone, Copy, Debug, PartialEq, Eq, Structural)]
pub struct Ipv4 {
    pub a: u8,
    pub b: u8,
    pub c: u8,
    pub d: u8,
}

impl Ipv4 {
    pub fn new(a: u8, b: u8, c: u8, d: u8) -> (r: Ipv4)
        ensures
            r == (Ipv4 { a, b, c, d }),
    {
        Ipv4 { a, b, c, d }
    }
}

/// One address entry that the system reports for an interface: its name, its
/// IPv4 address and netmask when it has them, and its flags.
pub struct Interface {
    pub name: String,
    pub address: Option<Ipv4>,
    pub netmask: Option<Ipv4>,
    pub flags: u32,
}

/// `iface` exists: some entry has its name.
pub fn iface_exists(ifaces: &[Interface], iface: &str) -> (r: bool)
    ensures
        r == exists|i: int| 0 <= i < ifaces@.len() && #[trigger] ifaces@[i].name@ == iface@,
{
    let mut i: usize = 0;
    while i < ifaces.len()
        invariant
            i <= ifaces@.len(),
            forall|j: int| 0 <= j < i ==> #[trigger] ifaces@[j].name@ != iface@,
        decreases ifaces@.len() - i,
    {
        if same_str(ifaces[i].name.as_str(), iface) {
            return true;
        }
        i += 1;
    }
    false
}

fn same_str(a: &str, b: &str) -> (r: bool)
    ensures
        r == (a@ == b@),
{
    let x = chars_of(a);
    let y = chars_of(b);
    same_chars(x.as_slice(), y.as_slice())
}

/// Which field of an entry a search reads.
#[derive(Clone, Copy, Debug, PartialEq, Eq, Structural)]
pub enum AddrField {
    Address,
    Netmask,
}

pub open spec fn field_of(e: Interface, f: AddrField) -> Option<Ipv4> {
    match f {
        AddrField::Address => e.address,
        AddrField::Netmask => e.netmask,
    }
}

/// The first IPv4 value of field `f` among the entries of `iface`, from entry
/// `k` on.
pub open spec fn first_addr(ifaces: Seq<Interface>, iface: Seq<char>, f: AddrField, k: int) -> Option<Ipv4>
    decreases ifaces.len() - k,
{
    if k >= ifaces.len() || k < 0 {
        None
    } else if ifaces[k].name@ == iface && field_of(ifaces[k], f) is Some {
        field_of(ifaces[k], f)
    } else {
        first_addr(ifaces, iface, f, k + 1)
    }
}

fn find_addr(ifaces: &[Interface], iface: &str, f: AddrField) -> (r: Option<Ipv4>)
    ensures
        r == first_addr(ifaces@, iface@, f, 0),
{
    let mut i: usize = 0;
    while i < ifaces.len()
        invariant
            i <= ifaces@.len(),
            first_addr(ifaces@, iface@, f, 0) == first_addr(ifaces@, iface@, f, i as int),
        decreases ifaces@.len() - i,
    {
        let v = match f {
            AddrField::Address => ifaces[i].address,
            AddrField::Netmask => ifaces[i].netmask,
        };
        if same_str(ifaces[i].name.as_str(), iface) && v.is_some() {
            return v;
        }
        i += 1;
    }
    None
}

/// The first IPv4 address of `iface`.
pub fn addr(ifaces: &[Interface], iface: &str) -> (r: Option<Ipv4>)
    ensures
        r == first_addr(ifaces@, iface@, AddrField::Address, 0),
{
    find_addr(ifaces, iface, AddrField::Address)
}

/// The first IPv4 netmask of `iface`.
pub fn netmask(ifaces: &[Interface], iface: &str) -> (r: Option<Ipv4>)
    ensures
        r == first_addr(ifaces@, iface@, AddrField::Netmask, 0),
{
    find_addr(ifaces, iface, AddrField::Netmask)
}

/// The index of the first entry of `iface`, from `k` on.
pub open spec fn first_entry(ifaces: Seq<Interface>, iface: Seq<char>, k: int) -> Option<int>
    decreases ifaces.len() - k,
{
    if k >= ifaces.len() || k < 0 {
        None
    } else if ifaces[k].name@ == iface {
        Some(k)
    } else {
        first_entry(ifaces, iface, k + 1)
    }
}

/// The flags of the first entry of `iface`, cut to a 16-bit number (the
/// width of the flags field of an interface request).
pub fn flags(ifaces: &[Interface], iface: &str) -> (r: Option<i16>)
    ensures
        match first_entry(ifaces@, iface@, 0) {
            Some(k) => r == Some(ifaces@[k].flags as i16),
            None => r is None,
        },
{
    let mut i: usize = 0;
    while i < ifaces.len()
        invariant
            i <= ifaces@.len(),
            first_entry(ifaces@, iface@, 0) == first_entry(ifaces@, iface@, i as int),
        decreases ifaces@.len() - i,
    {
        if same_str(ifaces[i].name.as_str(), iface) {
            return Some(ifaces[i].flags as i16);
        }
        i += 1;
    }
    None
}

// ---------------------------------------------------------------------------
// Commands
// ---------------------------------------------------------------------------

/// What a command asks of the system.
#[derive(Clone, Copy, Debug, PartialEq, Eq, Structural)]
pub enum Query {
    /// `-p`: address, netmask, broadcast and MTU.
    Config,
    Addr,
    Netmask,
    Network,
    Broadcast,
    Mtu,
    Hwaddr,
    Flags,
    /// All eight input (or output) statistics.
    RxAll,
    TxAll,
    /// One input (or output) statistic, by its column.
    Rx(usize),
    Tx(usize),
    /// Bytes per second in (or out).
    RxRate,
    TxRate,
}

/// The query of command `k` (for the commands past `-pe`).
pub open spec fn command_query(k: int) -> Query {
    if k == 1 { Query::Config } else if k == 3 { Query::Addr } else if k == 4 { Query::Netmask }
    else if k == 5 { Query::Network } else if k == 6 { Query::Broadcast } else if k == 7 { Query::Mtu }
    else if k == 8 { Query::Hwaddr } else if k == 9 { Query::Flags } else if k == 10 { Query::RxAll }
    else if k == 11 { Query::Rx(1) } else if k == 12 { Query::Rx(0) } else if k == 13 { Query::Rx(2) }
    else if k == 14 { Query::Rx(3) } else if k == 15 { Query::Rx(4) } else if k == 16 { Query::Rx(6) }
    else if k == 17 { Query::Rx(7) } else if k == 18 { Query::TxAll } else if k == 19 { Query::Tx(1) }
    else if k == 20 { Query::Tx(0) } else if k == 21 { Query::Tx(2) } else if k == 22 { Query::Tx(3) }
    else if k == 23 { Query::Tx(4) } else if k == 24 { Query::Tx(5) } else if k == 25 { Query::Tx(6) }
    else if k == 26 { Query::Tx(7) } else if k == 27 { Query::RxRate } else { Query::TxRate }
}

fn query_of(k: usize) -> (q: Query)
    ensures
        q == command_query(k as int),
{
    match k {
        1 => Query::Config,
        3 => Query::Addr,
        4 => Query::Netmask,
        5 => Query::Network,
        6 => Query::Broadcast,
        7 => Query::Mtu,
        8 => Query::Hwaddr,
        9 => Query::Flags,
        10 => Query::RxAll,
        11 => Query::Rx(1),
        12 => Query::Rx(0),
        13 => Query::Rx(2),
        14 => Query::Rx(3),
        15 => Query::Rx(4),
        16 => Query::Rx(6),
        17 => Query::Rx(7),
        18 => Query::TxAll,
        19 => Query::Tx(1),
        20 => Query::Tx(0),
        21 => Query::Tx(2),
        22 => Query::Tx(3),
        23 => Query::Tx(4),
        24 => Query::Tx(5),
        25 => Query::Tx(6),
        26 => Query::Tx(7),
        27 => Query::RxRate,
        _ => Query::TxRate,
    }
}

/// What `ifdata` does for one command.
#[derive(Clone, Copy, Debug, PartialEq, Eq, Structural)]
pub enum Action {
    /// Exit with this status (`-e`).
    Exit(i32),
    /// Print `yes` or `no` (`-pe`).
    Answer(bool),
    /// "Error getting statistics for IFACE", exit status 1.
    StatsNotFound,
    /// "No such network interface: IFACE", exit status 1.
    IfaceNotFound,
    /// Ask the system and print the answer.
    Run(Query),
    /// The usage text, exit status 1.
    Usage,
}

pub open spec fn command_action_spec(opt: Seq<char>, exists: bool) -> Action {
    let k = find_command(opt, 0);
    if k == Some(0int) {
        Action::Exit(if exists { 0 } else { 1 })
    } else if k == Some(2int) {
        Action::Answer(exists)
    } else {
        if !exists && stats_or_rate_spec(opt) {
            Action::StatsNotFound
        } else if !exists {
            Action::IfaceNotFound
        } else {
            match find_command(opt, 0) {
                Some(k) => Action::Run(command_query(k)),
                None => Action::Usage,
            }
        }
    }
}

/// What the command `opt` does on an interface that exists or not.
pub fn command_action(opt: &str, exists: bool) -> (r: Action)
    ensures
        r == command_action_spec(opt@, exists),
{
    let k = command_index(opt);
    match k {
        Some(0) => return Action::Exit(if exists { 0 } else { 1 }),
        Some(2) => return Action::Answer(exists),
        _ => {},
    }
    if !exists && is_stats_or_rate(opt) {
        Action::StatsNotFound
    } else if !exists {
        Action::IfaceNotFound
    } else {
        match k {
            Some(k) => Action::Run(query_of(k)),
            None => Action::Usage,
        }
    }
}

// ---------------------------------------------------------------------------
// Answers
// ---------------------------------------------------------------------------

pub open spec fn ipv4_spec(a: Ipv4) -> Seq<char> {
    decimal(a.a as nat) + seq!['.'] + decimal(a.b as nat) + seq!['.'] + decimal(a.c as nat) + seq!['.']
        + decimal(a.d as nat)
}

pub open spec fn non_ip() -> Seq<char> {
    seq!['N', 'O', 'N', '-', 'I', 'P']
}

/// An address in dotted decimal, or `NON-IP`.
pub open spec fn ipv4_text_spec(a: Option<Ipv4>) -> Seq<char> {
    match a {
        Some(a) => ipv4_spec(a),
        None => non_ip(),
    }
}

fn push_ipv4(out: &mut Vec<char>, a: Ipv4)
    ensures
        final(out)@ == old(out)@ + ipv4_spec(a),
{
    push_decimal(out, a.a as u64);
    out.push('.');
    push_decimal(out, a.b as u64);
    out.push('.');
    push_decimal(out, a.c as u64);
    out.push('.');
    push_decimal(out, a.d as u64);
    assert(final(out)@ =~= old(out)@ + ipv4_spec(a));
}

fn push_ipv4_text(out: &mut Vec<char>, a: Option<Ipv4>)
    ensures
        final(out)@ == old(out)@ + ipv4_text_spec(a),
{
    match a {
        Some(a) => push_ipv4(out, a),
        None => {
            let ghost start = out@;
            out.push('N');
            out.push('O');
            out.push('N');
            out.push('-');
            out.push('I');
            out.push('P');
            assert(out@ =~= start + non_ip());
        },
    }
}

pub fn ipv4_text(a: Option<Ipv4>) -> (r: String)
    ensures
        r@ == ipv4_text_spec(a),
{
    let mut out: Vec<char> = Vec::new();
    push_ipv4_text(&mut out, a);
    string_from_chars(out.as_slice())
}

/// The network of an address under a netmask.
pub open spec fn network_spec(a: Ipv4, m: Ipv4) -> Ipv4 {
    Ipv4 { a: a.a & m.a, b: a.b & m.b, c: a.c & m.c, d: a.d & m.d }
}

pub fn network(a: Ipv4, m: Ipv4) -> (r: Ipv4)
    ensures
        r == network_spec(a, m),
{
    Ipv4 { a: a.a & m.a, b: a.b & m.b, c: a.c & m.c, d: a.d & m.d }
}

pub open spec fn network_text_spec(a: Option<Ipv4>, m: Option<Ipv4>) -> Seq<char> {
    match (a, m) {
        (Some(a), Some(m)) => ipv4_spec(network_spec(a, m)),
        _ => non_ip(),
    }
}

pub fn network_text(a: Option<Ipv4>, m: Option<Ipv4>) -> (r: String)
    ensures
        r@ == network_text_spec(a, m),
{
    match (a, m) {
        (Some(a), Some(m)) => ipv4_text(Some(network(a, m))),
        _ => ipv4_text(None),
    }
}

pub open spec fn broadcast_text_spec(a: Option<Ipv4>, b: Option<Ipv4>) -> Seq<char> {
    if a is Some {
        match b {
            Some(b) => ipv4_spec(b),
            None => ipv4_spec(Ipv4 { a: 0, b: 0, c: 0, d: 0 }),
        }
    } else {
        non_ip()
    }
}

fn push_broadcast_text(out: &mut Vec<char>, a: Option<Ipv4>, b: Option<Ipv4>)
    ensures
        final(out)@ == old(out)@ + broadcast_text_spec(a, b),
{
    if a.is_some() {
        match b {
            Some(b) => push_ipv4(out, b),
            None => push_ipv4(out, Ipv4 { a: 0, b: 0, c: 0, d: 0 }),
        }
    } else {
        push_ipv4_text(out, None);
    }
}

/// The broadcast address of an interface with an address (`0.0.0.0` when it
/// has none), else `NON-IP`.
pub fn broadcast_text(a: Option<Ipv4>, b: Option<Ipv4>) -> (r: String)
    ensures
        r@ == broadcast_text_spec(a, b),
{
    let mut out: Vec<char> = Vec::new();
    push_broadcast_text(&mut out, a, b);
    string_from_chars(out.as_slice())
}

pub open spec fn config_text_spec(a: Option<Ipv4>, m: Option<Ipv4>, b: Option<Ipv4>, mtu: i32) -> Seq<char> {
    ipv4_text_spec(a) + seq![' '] + ipv4_text_spec(m) + seq![' '] + broadcast_text_spec(a, b) + seq![' ']
        + signed_decimal(mtu as int)
}

/// The answer of `-p`: address, netmask, broadcast and MTU.
pub fn config_text(a: Option<Ipv4>, m: Option<Ipv4>, b: Option<Ipv4>, mtu: i32) -> (r: String)
    ensures
        r@ == config_text_spec(a, m, b, mtu),
{
    let mut out: Vec<char> = Vec::new();
    push_ipv4_text(&mut out, a);
    out.push(' ');
    push_ipv4_text(&mut out, m);
    out.push(' ');
    push_broadcast_text(&mut out, a, b);
    out.push(' ');
    push_signed_decimal(&mut out, mtu as i64);
    assert(out@ =~= config_text_spec(a, m, b, mtu));
    string_from_chars(out.as_slice())
}

/// The name of flag bit `k`.
pub open spec fn flag_name(k: int) -> Seq<char> {
    if k == 0 { "Up"@ } else if k == 1 { "Broadcast"@ } else if k == 2 { "Debugging"@ }
    else if k == 3 { "Loopback"@ } else if k == 4 { "Ppp"@ } else if k == 5 { "No-trailers"@ }
    else if k == 6 { "Running"@ } else if k == 7 { "No-arp"@ } else if k == 8 { "Promiscuous"@ }
    else if k == 9 { "All-multicast"@ } else if k == 10 { "Load-master"@ } else if k == 11 { "Load-slave"@ }
    else if k == 12 { "Multicast"@ } else if k == 13 { "Port-select"@ } else if k == 14 { "Auto-detect"@ }
    else if k == 15 { "Dynaddr"@ } else { "Unknown-flags"@ }
}

fn flag_name_str(k: u32) -> (r: &'static str)
    requires
        k < 17,
    ensures
        r@ == flag_name(k as int),
{
    match k {
        0 => "Up",
        1 => "Broadcast",
        2 => "Debugging",
        3 => "Loopback",
        4 => "Ppp",
        5 => "No-trailers",
        6 => "Running",
        7 => "No-arp",
        8 => "Promiscuous",
        9 => "All-multicast",
        10 => "Load-master",
        11 => "Load-slave",
        12 => "Multicast",
        13 => "Port-select",
        14 => "Auto-detect",
        15 => "Dynaddr",
        _ => "Unknown-flags",
    }
}

/// Flag bit `k` is set in `bits`, read as a 32-bit number.
pub open spec fn flag_on(bits: i16, k: u32) -> bool {
    (bits as u32) & (1u32 << k) != 0
}

/// The lines of `-pf` for the first `k` flags.
pub open spec fn flag_lines(bits: i16, k: int) -> Seq<char>
    decreases k,
{
    if k <= 0 {
        Seq::empty()
    } else {
        flag_lines(bits, k - 1) + (if flag_on(bits, (k - 1) as u32) { "On  "@ } else { "Off "@ })
            + flag_name(k - 1) + seq!['\n']
    }
}

/// The answer of `-pf`: for each of the seventeen flags, `On  ` or `Off `,
/// its name and a newline.
pub fn flags_text(bits: i16) -> (r: String)
    ensures
        r@ == flag_lines(bits, 17),
{
    let w: u32 = bits as u32;
    let mut out: Vec<char> = Vec::new();
    let mut k: u32 = 0;
    while k < 17
        invariant
            k <= 17,
            w == bits as u32,
            out@ == flag_lines(bits, k as int),
        decreases 17 - k,
    {
        let on = w & (1u32 << k) != 0;
        assert(on == flag_on(bits, k));
        if on {
            push_str(&mut out, "On  ");
        } else {
            push_str(&mut out, "Off ");
        }
        push_str(&mut out, flag_name_str(k));
        out.push('\n');
        k += 1;
        assert(out@ =~= flag_lines(bits, k as int));
    }
    string_from_chars(out.as_slice())
}

pub open spec fn hex_digit(v: int) -> char {
    if v < 10 {
        ((v + 48) as u8) as char
    } else {
        ((v + 55) as u8) as char
    }
}

pub open spec fn hex_byte(b: u8) -> Seq<char> {
    seq![hex_digit(b as int / 16), hex_digit(b as int % 16)]
}

/// The hardware address in upper-case hex pairs joined by colons.
pub open spec fn hwaddr_spec(mac: Seq<u8>) -> Seq<char> {
    hex_byte(mac[0]) + seq![':'] + hex_byte(mac[1]) + seq![':'] + hex_byte(mac[2]) + seq![':'] + hex_byte(mac[3])
        + seq![':'] + hex_byte(mac[4]) + seq![':'] + hex_byte(mac[5])
}

pub fn hex_char(v: u8) -> (c: char)
    requires
        v < 16,
    ensures
        c == hex_digit(v as int),
{
    if v < 10 {
        (v + 48) as char
    } else {
        (v + 55) as char
    }
}

/// The answer of `-ph`; None when the address is all zeros, which `ifdata`
/// reports as an error.
pub fn hwaddr_text(mac: [u8; 6]) -> (r: Option<String>)
    ensures
        match r {
            Some(s) => s@ == hwaddr_spec(mac@) && exists|i: int| 0 <= i < 6 && mac@[i] != 0,
            None => forall|i: int| 0 <= i < 6 ==> mac@[i] == 0,
        },
{
    if mac[0] == 0 && mac[1] == 0 && mac[2] == 0 && mac[3] == 0 && mac[4] == 0 && mac[5] == 0 {
        assert forall|i: int| 0 <= i < 6 implies mac@[i] == 0 by {
            assert(mac@[i] == mac[i]);
        }
        return None;
    }
    let mut out: Vec<char> = Vec::new();
    let mut i: usize = 0;
    while i < 6
        invariant
            i <= 6,
            mac@.len() == 6,
            i > 0 ==> out@ == hwaddr_prefix(mac@, i as int),
            i == 0 ==> out@.len() == 0,
        decreases 6 - i,
    {
        if i > 0 {
            out.push(':');
        }
        let b = mac[i];
        out.push(hex_char(b / 16));
        out.push(hex_char(b % 16));
        proof {
            if i == 0 {
                assert(out@ =~= hex_byte(mac@[0]));
            } else {
                assert(out@ =~= hwaddr_prefix(mac@, i as int) + seq![':'] + hex_byte(mac@[i as int]));
            }
        }
        i += 1;
    }
    assert(hwaddr_prefix(mac@, 6) =~= hwaddr_spec(mac@)) by {
        reveal_with_fuel(hwaddr_prefix, 6);
    }
    proof {
        if mac[0] != 0 { assert(mac@[0] != 0); }
        if mac[1] != 0 { assert(mac@[1] != 0); }
        if mac[2] != 0 { assert(mac@[2] != 0); }
        if mac[3] != 0 { assert(mac@[3] != 0); }
        if mac[4] != 0 { assert(mac@[4] != 0); }
        if mac[5] != 0 { assert(mac@[5] != 0); }
    }
    Some(string_from_chars(out.as_slice()))
}

pub open spec fn hwaddr_prefix(mac: Seq<u8>, k: int) -> Seq<char>
    decreases k,
{
    if k <= 1 {
        hex_byte(mac[0])
    } else {
        hwaddr_prefix(mac, k - 1) + seq![':'] + hex_byte(mac[k - 1])
    }
}

/// Numbers in decimal, separated by spaces.
pub open spec fn numbers_spec(v: Seq<u64>) -> Seq<char>
    decreases v.len(),
{
    if v.len() == 0 {
        Seq::empty()
    } else if v.len() == 1 {
        decimal(v[0] as nat)
    } else {
        numbers_spec(v.drop_last()) + seq![' '] + decimal(v.last() as nat)
    }
}

/// The answer of `-si` and `-so`: the eight numbers separated by spaces.
pub fn numbers_text(v: &[u64]) -> (r: String)
    ensures
        r@ == numbers_spec(v@),
{
    let mut out: Vec<char> = Vec::new();
    let mut i: usize = 0;
    while i < v.len()
        invariant
            i <= v@.len(),
            out@ == numbers_spec(v@.take(i as int)),
        decreases v@.len() - i,
    {
        let ghost before = out@;
        if i > 0 {
            out.push(' ');
        }
        push_decimal(&mut out, v[i]);
        i += 1;
        proof {
            let t = v@.take(i as int);
            assert(t.drop_last() =~= v@.take(i - 1));
            if i == 1 {
                assert(out@ =~= decimal(t[0] as nat));
            } else {
                assert(out@ =~= numbers_spec(t.drop_last()) + seq![' '] + decimal(t.last() as nat));
            }
        }
    }
    assert(v@.take(v@.len() as int) =~= v@);
    string_from_chars(out.as_slice())
}

// ---------------------------------------------------------------------------
// /proc/net/dev
// ---------------------------------------------------------------------------

/// The numbers among `ws` (the words that parse as `u64`), in order.
pub open spec fn parsed_u64s(ws: Seq<Seq<char>>) -> Seq<u64>
    decreases ws.len(),
{
    if ws.len() == 0 {
        Seq::empty()
    } else {
        let rest = parsed_u64s(ws.drop_first());
        match parse_int_spec(ws[0], false, 0, u64::MAX as int) {
            Some(v) => seq![v as u64] + rest,
            None => rest,
        }
    }
}

/// What `/proc/net/dev` (by its lines, from line `k` on) says of `iface`:
/// None when no line names it, `Some(None)` when its line has fewer than
/// sixteen numbers, else its first eight (input) and next eight (output)
/// numbers.
pub open spec fn net_dev_spec(lines: Seq<Seq<char>>, iface: Seq<char>, k: int) -> Option<Option<(Seq<u64>, Seq<u64>)>>
    decreases lines.len() - k,
{
    if k >= lines.len() || k < 0 {
        None
    } else {
        let l = lines[k];
        if !l.contains(':') || trim_ws(before_first(l, ':')) != iface {
            net_dev_spec(lines, iface, k + 1)
        } else {
            let vals = parsed_u64s(fields(after_first(l, ':'), Sep::Whitespace));
            if vals.len() >= 16 {
                Some(Some((vals.subrange(0, 8), vals.subrange(8, 16))))
            } else {
                Some(None)
            }
        }
    }
}

/// The statistics of an interface read from `/proc/net/dev`.
pub enum NetDev {
    /// The eight input and eight output numbers.
    Found(Vec<u64>, Vec<u64>),
    /// The interface's line is malformed ("Invalid data read, check!").
    Invalid,
    /// No line names the interface.
    Missing,
}

pub open spec fn net_dev_view(r: NetDev) -> Option<Option<(Seq<u64>, Seq<u64>)>> {
    match r {
        NetDev::Found(rx, tx) => Some(Some((rx@, tx@))),
        NetDev::Invalid => Some(None),
        NetDev::Missing => None,
    }
}

fn parse_numbers(ws: &Vec<Vec<char>>) -> (r: Vec<u64>)
    ensures
        r@ == parsed_u64s(views_of(ws@)),
{
    let ghost w = views_of(ws@);
    let mut r: Vec<u64> = Vec::new();
    let mut i: usize = ws.len();
    assert(w.skip(w.len() as int) =~= Seq::<Seq<char>>::empty());
    while i > 0
        invariant
            i <= ws@.len(),
            w == views_of(ws@),
            r@ == parsed_u64s(w.skip(i as int)),
        decreases i,
    {
        i -= 1;
        assert(w.skip(i as int).drop_first() =~= w.skip(i + 1));
        assert(w.skip(i as int)[0] == ws@[i as int]@);
        match parse_int(ws[i].as_slice(), false, 0, 0xFFFF_FFFF_FFFF_FFFF) {
            Some(v) => {
                let mut t: Vec<u64> = Vec::new();
                t.push(v as u64);
                let mut j: usize = 0;
                let ghost rr = r@;
                while j < r.len()
                    invariant
                        j <= rr.len(),
                        r@ == rr,
                        t@ == seq![v as u64] + rr.take(j as int),
                    decreases rr.len() - j,
                {
                    t.push(r[j]);
                    j += 1;
                    assert(rr.take(j as int) =~= rr.take(j - 1).push(rr[j - 1]));
                }
                assert(rr.take(rr.len() as int) =~= rr);
                r = t;
            },
            None => {},
        }
    }
    assert(w.skip(0) =~= w);
    r
}

/// Reads the statistics of `iface` from the text of `/proc/net/dev`.
pub fn parse_net_dev(text: &str, iface: &str) -> (r: NetDev)
    ensures
        net_dev_view(r) == net_dev_spec(text_lines(text@), iface@, 0),
{
    let t = chars_of(text);
    let want = chars_of(iface);
    let lines = split_lines(t.as_slice());
    let ghost ls = views_of(lines@);
    let mut k: usize = 0;
    while k < lines.len()
        invariant
            k <= lines@.len(),
            ls == views_of(lines@),
            ls == text_lines(text@),
            want@ == iface@,
            net_dev_spec(ls, iface@, 0) == net_dev_spec(ls, iface@, k as int),
        decreases lines@.len() - k,
    {
        assert(lines@[k as int]@ == ls[k as int]);
        match split_once(lines[k].as_slice(), ':') {
            Some((name, rest)) => {
                let trimmed = trim_chars(name.as_slice());
                if same_chars(trimmed.as_slice(), want.as_slice()) {
                    let ws = split_fields(rest.as_slice(), Sep::Whitespace);
                    let vals = parse_numbers(&ws);
                    if vals.len() >= 16 {
                        let mut rx: Vec<u64> = Vec::new();
                        let mut tx: Vec<u64> = Vec::new();
                        let mut j: usize = 0;
                        while j < 8
                            invariant
                                j <= 8,
                                vals@.len() >= 16,
                                rx@ == vals@.subrange(0, j as int),
                                tx@ == vals@.subrange(8, 8 + j),
                            decreases 8 - j,
                        {
                            rx.push(vals[j]);
                            tx.push(vals[8 + j]);
                            j += 1;
                            assert(rx@ =~= vals@.subrange(0, j as int));
                            assert(tx@ =~= vals@.subrange(8, 8 + j));
                        }
                        return NetDev::Found(rx, tx);
                    }
                    return NetDev::Invalid;
                }
            },
            None => {},
        }
        k += 1;
    }
    NetDev::Missing
}

/// How many bytes went by between two readings (`saturating_sub`).
pub fn byte_rate(before: u64, after: u64) -> (r: u64)
    ensures
        r == if after >= before { after - before } else { 0 },
{
    after.saturating_sub(before)
}

} // verus!
