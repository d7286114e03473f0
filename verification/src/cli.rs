//! The command line: rules `--<tcp|udp> <listen port>:<target host/ip>:<target port>`,
//! `--bind <address>`, `--max-workers <count>`, `--debug` and `--help`.
//!
//! A target given by name must be resolved, which is I/O and so the caller's
//! part.  Parsing therefore works against the lookups done so far: where it
//! reaches a name that has no lookup yet, it stops and names the host.  The
//! caller resolves it, appends the outcome and parses again, until parsing
//! ends without asking.  The answer is then the one a parse that resolved
//! each name at the moment it met it would give.

use vstd::prelude::*;
use crate::addr::{
    Ipv4Addr, IpAddress, SocketAddrV4, ipv4_text, law_ipv4_text_roundtrip, spec_parse_ipv4,
    parse_ipv4_in,
};
use crate::rules::{Protocol, Rule};
use crate::text::{
    chars_of, decimal, field, field_bounds, is_digit, law_u16_text_roundtrip, lemma_decimal,
    lemma_field_cut, lemma_field_whole, parse_u16_in, parse_usize_in, spec_parse_u16,
    spec_parse_usize,
};

verus! {

/// The first IPv4 address among the addresses a lookup found.
pub open spec fn first_v4(addrs: Seq<IpAddress>) -> Option<Ipv4Addr>
    decreases addrs.len(),
{
    if addrs.len() == 0 {
        None
    } else {
        match addrs[0] {
            IpAddress::V4(a) => Some(a),
            IpAddress::V6(_) => first_v4(addrs.drop_first()),
        }
    }
}

/// The address a lookup outcome resolves to: its first IPv4 address, and
/// none where the lookup failed.
pub open spec fn resolved(outcome: Option<Vec<IpAddress>>) -> Option<Ipv4Addr> {
    match outcome {
        Some(addrs) => first_v4(addrs@),
        None => None,
    }
}

/// Law: a lookup resolves to the IPv4 address that comes first among its
/// addresses, however many IPv6 addresses stand before it, and to none
/// exactly when it found no IPv4 address at all.
pub proof fn law_first_v4_is_first_ipv4(addrs: Seq<IpAddress>)
    ensures
        forall|i: int, a: Ipv4Addr|
            0 <= i < addrs.len() && addrs[i] == IpAddress::V4(a) && (forall|j: int| 0 <= j < i ==> addrs[j] is V6)
                ==> first_v4(addrs) == Some(a),
        first_v4(addrs) is None <==> forall|j: int| 0 <= j < addrs.len() ==> addrs[j] is V6,
        first_v4(addrs) matches Some(a) ==> exists|i: int|
            0 <= i < addrs.len() && addrs[i] == IpAddress::V4(a) && forall|j: int| 0 <= j < i ==> addrs[j] is V6,
    decreases addrs.len(),
{
    if addrs.len() > 0 {
        let t = addrs.drop_first();
        law_first_v4_is_first_ipv4(t);
        assert forall|j: int| 0 < j < addrs.len() implies addrs[j] == t[j - 1] by {}
        assert forall|i: int, a: Ipv4Addr|
            0 <= i < addrs.len() && addrs[i] == IpAddress::V4(a) && (forall|j: int| 0 <= j < i ==> addrs[j] is V6)
                implies first_v4(addrs) == Some(a) by {
            if i > 0 {
                assert(addrs[0] is V6);
                assert(t[i - 1] == addrs[i]);
                assert forall|j: int| 0 <= j < i - 1 implies t[j] is V6 by {
                    assert(t[j] == addrs[j + 1]);
                }
            }
        }
        if first_v4(addrs) is None {
            assert forall|j: int| 0 <= j < addrs.len() implies addrs[j] is V6 by {
                if j > 0 {
                    assert(addrs[j] == t[j - 1]);
                }
            }
        }
        if forall|j: int| 0 <= j < addrs.len() ==> addrs[j] is V6 {
            assert(addrs[0] is V6);
            assert forall|j: int| 0 <= j < t.len() implies t[j] is V6 by {
                assert(t[j] == addrs[j + 1]);
            }
        }
        if let Some(a) = first_v4(addrs) {
            if addrs[0] is V6 {
                let i = choose|i: int|
                    0 <= i < t.len() && t[i] == IpAddress::V4(a) && forall|j: int| 0 <= j < i ==> t[j] is V6;
                assert(addrs[i + 1] == t[i]);
                assert forall|j: int| 0 <= j < i + 1 implies addrs[j] is V6 by {
                    if j > 0 {
                        assert(addrs[j] == t[j - 1]);
                    }
                }
            } else {
                assert(addrs[0] == IpAddress::V4(a));
            }
        }
    }
}

/// Picks the first IPv4 address that a lookup found.
pub fn first_ipv4(addrs: &Vec<IpAddress>) -> (r: Option<Ipv4Addr>)
    ensures
        r == first_v4(addrs@),
{
    let mut i: usize = 0;
    assert(addrs@.skip(0) =~= addrs@);
    while i < addrs.len()
        invariant
            i <= addrs@.len(),
            first_v4(addrs@) == first_v4(addrs@.skip(i as int)),
        decreases addrs.len() - i,
    {
        assert(addrs@.skip(i as int).drop_first() =~= addrs@.skip(i + 1));
        match addrs[i] {
            IpAddress::V4(a) => {
                return Some(a);
            },
            IpAddress::V6(_) => {},
        }
        i = i + 1;
    }
    None
}

/// What reading one rule token gives.
pub enum RuleRead {
    /// The token is not a rule.
    Invalid,
    /// The target host needs a lookup that has not been done.
    Lookup(Seq<char>),
    /// The target host was looked up and has no IPv4 address: the rule is skipped.
    Unresolved,
    /// A complete rule.
    Read(Rule),
}

/// Reads the rule token `tok` for protocol `p`, where `next_lookup` is the
/// outcome of the next lookup, if it has been done.  The pieces are checked in
/// order: the listen port, the presence of a host, the host (an address, or
/// else a name that must resolve), then the target port.  Pieces after the
/// third are ignored.
pub open spec fn read_rule(p: Protocol, tok: Seq<char>, next_lookup: Option<Option<Ipv4Addr>>) -> RuleRead {
    match field(tok, ':', 0) {
        None => RuleRead::Invalid,
        Some(f0) => match spec_parse_u16(f0) {
            None => RuleRead::Invalid,
            Some(listen_port) => match field(tok, ':', 1) {
                None => RuleRead::Invalid,
                Some(host) => {
                    let ip = match spec_parse_ipv4(host) {
                        Some(a) => Some(Some(a)),
                        None => next_lookup,
                    };
                    match ip {
                        None => RuleRead::Lookup(host),
                        Some(None) => RuleRead::Unresolved,
                        Some(Some(a)) => match field(tok, ':', 2) {
                            None => RuleRead::Invalid,
                            Some(f2) => match spec_parse_u16(f2) {
                                None => RuleRead::Invalid,
                                Some(port) => RuleRead::Read(
                                    Rule {
                                        protocol: p,
                                        listen_port,
                                        target_address: SocketAddrV4 { ip: a, port },
                                    },
                                ),
                            },
                        },
                    }
                },
            },
        },
    }
}

/// Whether reading the rule token `tok` takes a lookup: its listen port is
/// valid and its host is present but is no address.
pub open spec fn takes_lookup(tok: Seq<char>) -> bool {
    &&& field(tok, ':', 0) matches Some(f0) && spec_parse_u16(f0) is Some
    &&& field(tok, ':', 1) matches Some(host) && spec_parse_ipv4(host) is None
}

/// Where parsing the command line stops.
pub enum ArgsEnd {
    /// All tokens were read.
    Finished,
    /// `--help` is one of the tokens.
    Help,
    /// The token after `--bind` is no address.
    BadBindAddress,
    /// The token after `--max-workers` is no count.
    BadWorkerCount,
    /// A rule token is malformed.
    BadRule,
    /// The host of a rule must be looked up first.
    NeedsLookup(Seq<char>),
}

/// The state of parsing between two tokens.
pub struct ArgsState {
    /// The rules read so far.
    pub rules: Seq<Rule>,
    /// The protocol of the rule that the next token gives, after `--tcp` or `--udp`.
    pub expect_rule: Option<Protocol>,
    /// Whether the next token is the bind address, after `--bind`.
    pub expect_bind_addr: bool,
    /// Whether the next token is the worker count, after `--max-workers`.
    pub expect_max_workers: bool,
    /// The bind address.
    pub bind_addr: Ipv4Addr,
    /// The number of workers.
    pub max_workers: usize,
    /// How many lookups have been used.
    pub used: nat,
}

/// The state before the first token.
pub open spec fn initial_state(bind_addr: Ipv4Addr, max_workers: usize) -> ArgsState {
    ArgsState {
        rules: Seq::empty(),
        expect_rule: None,
        expect_bind_addr: false,
        expect_max_workers: false,
        bind_addr,
        max_workers,
        used: 0,
    }
}

/// The outcome of the next lookup, if it has been done.
pub open spec fn next_lookup(st: ArgsState, lookups: Seq<Option<Vec<IpAddress>>>) -> Option<
    Option<Ipv4Addr>,
> {
    if st.used < lookups.len() {
        Some(resolved(lookups[st.used as int]))
    } else {
        None
    }
}

/// Whether `t` is one of the flags.
pub open spec fn flag_word(t: Seq<char>) -> bool {
    ||| t == "--help"@
    ||| t == "--tcp"@
    ||| t == "--udp"@
    ||| t == "--bind"@
    ||| t == "--max-workers"@
    ||| t == "--debug"@
}

/// Reads one token of a command line without `--help`: either parsing goes
/// on in a new state, or it stops.  A flag only sets what the next token is;
/// `--debug` changes nothing.  Otherwise the token is the bind address, else
/// the worker count, else a rule, as the flags before it asked; a token that
/// nothing asked for is passed over.
pub open spec fn step(st: ArgsState, tok: Seq<char>, lookups: Seq<Option<Vec<IpAddress>>>) -> (
    Option<ArgsEnd>,
    ArgsState,
) {
    if tok == "--tcp"@ {
        (None, ArgsState { expect_rule: Some(Protocol::TCP), ..st })
    } else if tok == "--udp"@ {
        (None, ArgsState { expect_rule: Some(Protocol::UDP), ..st })
    } else if tok == "--bind"@ {
        (None, ArgsState { expect_bind_addr: true, ..st })
    } else if tok == "--max-workers"@ {
        (None, ArgsState { expect_max_workers: true, ..st })
    } else if tok == "--debug"@ {
        (None, st)
    } else if st.expect_bind_addr {
        match spec_parse_ipv4(tok) {
            Some(a) => (None, ArgsState { bind_addr: a, expect_bind_addr: false, ..st }),
            None => (Some(ArgsEnd::BadBindAddress), st),
        }
    } else if st.expect_max_workers {
        match spec_parse_usize(tok) {
            Some(n) => (None, ArgsState { max_workers: n, expect_max_workers: false, ..st }),
            None => (Some(ArgsEnd::BadWorkerCount), st),
        }
    } else {
        match st.expect_rule {
            None => (None, st),
            Some(p) => match read_rule(p, tok, next_lookup(st, lookups)) {
                RuleRead::Invalid => (Some(ArgsEnd::BadRule), st),
                RuleRead::Lookup(host) => (Some(ArgsEnd::NeedsLookup(host)), st),
                RuleRead::Unresolved => (
                    None,
                    ArgsState { expect_rule: None, used: st.used + 1, ..st },
                ),
                RuleRead::Read(r) => (
                    None,
                    ArgsState {
                        rules: st.rules.push(r),
                        expect_rule: None,
                        used: if takes_lookup(tok) {
                            st.used + 1
                        } else {
                            st.used
                        },
                        ..st
                    },
                ),
            },
        }
    }
}

/// Reads the tokens in order from `st` until the end or a stop.
pub open spec fn run(st: ArgsState, toks: Seq<Seq<char>>, lookups: Seq<Option<Vec<IpAddress>>>) -> (
    ArgsEnd,
    ArgsState,
)
    decreases toks.len(),
{
    if toks.len() == 0 {
        (ArgsEnd::Finished, st)
    } else {
        match step(st, toks[0], lookups) {
            (Some(e), st2) => (e, st2),
            (None, st2) => run(st2, toks.drop_first(), lookups),
        }
    }
}

/// The tokens of the command line, as character sequences.
pub open spec fn tokens(args: Seq<String>) -> Seq<Seq<char>> {
    args.map_values(|t: String| t@)
}

/// Whether `--help` is among the tokens.
pub open spec fn has_help(toks: Seq<Seq<char>>) -> bool {
    exists|j: int| 0 <= j < toks.len() && toks[j] == "--help"@
}

/// The position of the first `--help`, or the number of tokens where there
/// is none.
pub open spec fn help_at(toks: Seq<Seq<char>>) -> int
    decreases toks.len(),
{
    if toks.len() == 0 {
        0
    } else if toks[0] == "--help"@ {
        0
    } else {
        help_at(toks.drop_first()) + 1
    }
}

/// `help_at` is the first `--help`, or the end where there is none.
pub proof fn lemma_help_at(toks: Seq<Seq<char>>)
    ensures
        0 <= help_at(toks) <= toks.len(),
        forall|j: int| 0 <= j < help_at(toks) ==> toks[j] != "--help"@,
        help_at(toks) < toks.len() ==> toks[help_at(toks)] == "--help"@,
        help_at(toks) < toks.len() <==> has_help(toks),
    decreases toks.len(),
{
    if toks.len() > 0 && toks[0] != "--help"@ {
        let t = toks.drop_first();
        lemma_help_at(t);
        assert forall|j: int| 0 <= j < help_at(toks) implies toks[j] != "--help"@ by {
            if j > 0 {
                assert(toks[j] == t[j - 1]);
            }
        }
        if help_at(toks) < toks.len() {
            assert(toks[help_at(toks)] == t[help_at(t)]);
        }
        if has_help(toks) {
            let j = choose|j: int| 0 <= j < toks.len() && toks[j] == "--help"@;
            assert(t[j - 1] == toks[j]);
        }
        if has_help(t) {
            let j = choose|j: int| 0 <= j < t.len() && t[j] == "--help"@;
            assert(toks[j + 1] == t[j]);
        }
    }
}

/// The parse of the whole command line, from bind address `bind_addr` and
/// worker count `max_workers`.  The tokens before the first `--help` are read
/// in order; where there is a `--help`, the answer is help, with the bind
/// address and worker count that reading reached (it ends silently at an
/// error, and asks for a lookup where it needs one).  Without `--help` all
/// tokens are read.
pub open spec fn parse_run(
    args: Seq<String>,
    bind_addr: Ipv4Addr,
    max_workers: usize,
    lookups: Seq<Option<Vec<IpAddress>>>,
) -> (ArgsEnd, ArgsState) {
    let toks = tokens(args);
    let h = help_at(toks);
    if h < toks.len() {
        let (e, st) = run(initial_state(bind_addr, max_workers), toks.take(h), lookups);
        if e is NeedsLookup {
            (e, st)
        } else {
            (ArgsEnd::Help, st)
        }
    } else {
        run(initial_state(bind_addr, max_workers), toks, lookups)
    }
}

/// The tokens that a parse of `args` reads: those before the first `--help`.
pub open spec fn read_tokens(args: Seq<String>) -> Seq<Seq<char>> {
    tokens(args).take(help_at(tokens(args)))
}

/// The parse reads exactly the tokens before the first `--help`.
proof fn lemma_parse_run_reads(
    args: Seq<String>,
    bind_addr: Ipv4Addr,
    max_workers: usize,
    lookups: Seq<Option<Vec<IpAddress>>>,
)
    ensures
        parse_run(args, bind_addr, max_workers, lookups).1 == run(
            initial_state(bind_addr, max_workers),
            read_tokens(args),
            lookups,
        ).1,
        parse_run(args, bind_addr, max_workers, lookups).0 is NeedsLookup <==> run(
            initial_state(bind_addr, max_workers),
            read_tokens(args),
            lookups,
        ).0 is NeedsLookup,
        parse_run(args, bind_addr, max_workers, lookups).0 is NeedsLookup ==> parse_run(
            args,
            bind_addr,
            max_workers,
            lookups,
        ).0 == run(initial_state(bind_addr, max_workers), read_tokens(args), lookups).0,
        read_tokens(args).len() <= tokens(args).len(),
        forall|j: int| 0 <= j < read_tokens(args).len() ==> read_tokens(args)[j] == tokens(args)[j],
        help_at(tokens(args)) < tokens(args).len() ==> parse_run(args, bind_addr, max_workers, lookups)
            == (if run(initial_state(bind_addr, max_workers), read_tokens(args), lookups).0 is NeedsLookup {
            run(initial_state(bind_addr, max_workers), read_tokens(args), lookups)
        } else {
            (ArgsEnd::Help, run(initial_state(bind_addr, max_workers), read_tokens(args), lookups).1)
        }),
        help_at(tokens(args)) == tokens(args).len() ==> parse_run(args, bind_addr, max_workers, lookups)
            == run(initial_state(bind_addr, max_workers), read_tokens(args), lookups),
{
    lemma_help_at(tokens(args));
    if help_at(tokens(args)) == tokens(args).len() {
        assert(read_tokens(args) =~= tokens(args));
    }
}

/// The rules a parse that ended `e` in state `st` yields: none where it
/// stopped early or read no rule at all.
pub open spec fn rules_of(e: ArgsEnd, st: ArgsState) -> Option<Seq<Rule>> {
    match e {
        ArgsEnd::Finished => if st.rules.len() == 0 {
            None
        } else {
            Some(st.rules)
        },
        _ => None,
    }
}

/// How parsing the command line ended.
#[derive(Debug, PartialEq, Eq)]
pub enum ParseOutcome {
    /// All tokens were read; the rules, or `None` where there are none.
    Finished(Option<Vec<Rule>>),
    /// `--help` is one of the tokens.
    Help,
    /// The token after `--bind` is no IPv4 address.
    BadBindAddress,
    /// The token after `--max-workers` is no count.
    BadWorkerCount,
    /// A rule token is malformed.
    BadRule,
    /// This host must be looked up, and its outcome appended to the lookups.
    NeedsLookup(String),
}

/// Whether the outcome `r` is the parse's end `e` in state `st`.
pub open spec fn outcome_matches(r: ParseOutcome, e: ArgsEnd, st: ArgsState) -> bool {
    match (r, e) {
        (ParseOutcome::Finished(rules), ArgsEnd::Finished) => match rules {
            Some(v) => st.rules.len() > 0 && v@ == st.rules,
            None => st.rules.len() == 0,
        },
        (ParseOutcome::Help, ArgsEnd::Help) => true,
        (ParseOutcome::BadBindAddress, ArgsEnd::BadBindAddress) => true,
        (ParseOutcome::BadWorkerCount, ArgsEnd::BadWorkerCount) => true,
        (ParseOutcome::BadRule, ArgsEnd::BadRule) => true,
        (ParseOutcome::NeedsLookup(h), ArgsEnd::NeedsLookup(h2)) => h@ == h2,
        _ => false,
    }
}

/// Law: with `--help` among the tokens, wherever it stands and whatever the
/// other tokens, the parse yields no rules and answers help, unless it must
/// first ask for a lookup that the tokens before it need.  The bind address
/// and worker count are those that reading the tokens before the first
/// `--help` reached; an error there ends that reading but help is still the
/// answer.
pub proof fn law_help_wins(
    args: Seq<String>,
    bind_addr: Ipv4Addr,
    max_workers: usize,
    lookups: Seq<Option<Vec<IpAddress>>>,
    j: int,
)
    requires
        0 <= j < args.len(),
        args[j]@ == "--help"@,
    ensures
        parse_run(args, bind_addr, max_workers, lookups).0 is Help || parse_run(
            args,
            bind_addr,
            max_workers,
            lookups,
        ).0 is NeedsLookup,
        rules_of(
            parse_run(args, bind_addr, max_workers, lookups).0,
            parse_run(args, bind_addr, max_workers, lookups).1,
        ) is None,
        help_at(tokens(args)) <= j,
        read_tokens(args) == tokens(args).take(help_at(tokens(args))),
        parse_run(args, bind_addr, max_workers, lookups).1 == run(
            initial_state(bind_addr, max_workers),
            read_tokens(args),
            lookups,
        ).1,
{
    assert(tokens(args)[j] == args[j]@);
    lemma_help_at(tokens(args));
    lemma_parse_run_reads(args, bind_addr, max_workers, lookups);
}

/// Run with `st` and then with what it ends in.
proof fn lemma_run_append(
    st: ArgsState,
    a: Seq<Seq<char>>,
    b: Seq<Seq<char>>,
    lookups: Seq<Option<Vec<IpAddress>>>,
)
    ensures
        run(st, a + b, lookups) == (if run(st, a, lookups).0 is Finished {
            run(run(st, a, lookups).1, b, lookups)
        } else {
            run(st, a, lookups)
        }),
    decreases a.len(),
{
    if a.len() == 0 {
        assert(a + b =~= b);
    } else {
        assert((a + b)[0] == a[0]);
        assert((a + b).drop_first() =~= a.drop_first() + b);
        match step(st, a[0], lookups) {
            (Some(_), _) => {},
            (None, st2) => {
                lemma_run_append(st2, a.drop_first(), b, lookups);
            },
        }
    }
}

/// Without `--bind` among the tokens, a run that does not expect a bind
/// address keeps its bind address.
proof fn lemma_run_keeps_bind(st: ArgsState, toks: Seq<Seq<char>>, lookups: Seq<Option<Vec<IpAddress>>>)
    requires
        !st.expect_bind_addr,
        forall|j: int| 0 <= j < toks.len() ==> toks[j] != "--bind"@,
    ensures
        run(st, toks, lookups).1.bind_addr == st.bind_addr,
    decreases toks.len(),
{
    if toks.len() > 0 {
        match step(st, toks[0], lookups) {
            (Some(_), _) => {},
            (None, st2) => {
                assert forall|j: int| 0 <= j < toks.drop_first().len() implies toks.drop_first()[j]
                    != "--bind"@ by {
                    assert(toks.drop_first()[j] == toks[j + 1]);
                }
                lemma_run_keeps_bind(st2, toks.drop_first(), lookups);
            },
        }
    }
}

/// Law: without `--bind` among the tokens, parsing leaves the bind address as
/// it was.
pub proof fn law_bind_address_kept_without_flag(
    args: Seq<String>,
    bind_addr: Ipv4Addr,
    max_workers: usize,
    lookups: Seq<Option<Vec<IpAddress>>>,
)
    requires
        forall|j: int| 0 <= j < args.len() ==> args[j]@ != "--bind"@,
    ensures
        parse_run(args, bind_addr, max_workers, lookups).1.bind_addr == bind_addr,
{
    lemma_parse_run_reads(args, bind_addr, max_workers, lookups);
    assert forall|j: int| 0 <= j < read_tokens(args).len() implies read_tokens(args)[j] != "--bind"@ by {
        assert(tokens(args)[j] == args[j]@);
    }
    lemma_run_keeps_bind(initial_state(bind_addr, max_workers), read_tokens(args), lookups);
}

/// Without `--max-workers` among the tokens, a run that does not expect a
/// count keeps its worker count.
proof fn lemma_run_keeps_workers(st: ArgsState, toks: Seq<Seq<char>>, lookups: Seq<Option<Vec<IpAddress>>>)
    requires
        !st.expect_max_workers,
        forall|j: int| 0 <= j < toks.len() ==> toks[j] != "--max-workers"@,
    ensures
        run(st, toks, lookups).1.max_workers == st.max_workers,
    decreases toks.len(),
{
    if toks.len() > 0 {
        match step(st, toks[0], lookups) {
            (Some(_), _) => {},
            (None, st2) => {
                assert forall|j: int| 0 <= j < toks.drop_first().len() implies toks.drop_first()[j]
                    != "--max-workers"@ by {
                    assert(toks.drop_first()[j] == toks[j + 1]);
                }
                lemma_run_keeps_workers(st2, toks.drop_first(), lookups);
            },
        }
    }
}

/// Law: without `--max-workers` among the tokens, parsing leaves the worker
/// count as it was.
pub proof fn law_worker_count_kept_without_flag(
    args: Seq<String>,
    bind_addr: Ipv4Addr,
    max_workers: usize,
    lookups: Seq<Option<Vec<IpAddress>>>,
)
    requires
        forall|j: int| 0 <= j < args.len() ==> args[j]@ != "--max-workers"@,
    ensures
        parse_run(args, bind_addr, max_workers, lookups).1.max_workers == max_workers,
{
    lemma_parse_run_reads(args, bind_addr, max_workers, lookups);
    assert forall|j: int| 0 <= j < read_tokens(args).len() implies read_tokens(args)[j]
        != "--max-workers"@ by {
        assert(tokens(args)[j] == args[j]@);
    }
    lemma_run_keeps_workers(initial_state(bind_addr, max_workers), read_tokens(args), lookups);
}

/// `ext` begins with `pre`.
pub open spec fn extends(ext: Seq<Option<Vec<IpAddress>>>, pre: Seq<Option<Vec<IpAddress>>>) -> bool {
    pre.len() <= ext.len() && forall|i: int| 0 <= i < pre.len() ==> ext[i] == pre[i]
}

/// Run from a state that has used no more lookups than there are: the
/// lookups after those it uses do not matter, it never uses more than there
/// are, and it asks for one only when all are used.
proof fn lemma_run_lookups(
    st: ArgsState,
    toks: Seq<Seq<char>>,
    lookups: Seq<Option<Vec<IpAddress>>>,
    ext: Seq<Option<Vec<IpAddress>>>,
)
    requires
        st.used <= lookups.len(),
        extends(ext, lookups),
    ensures
        run(st, toks, lookups).1.used <= lookups.len(),
        run(st, toks, lookups).0 is NeedsLookup ==> run(st, toks, lookups).1.used == lookups.len(),
        !(run(st, toks, lookups).0 is NeedsLookup) ==> run(st, toks, ext) == run(st, toks, lookups),
    decreases toks.len(),
{
    if toks.len() > 0 {
        let tok = toks[0];
        if st.used < lookups.len() {
            assert(next_lookup(st, ext) == next_lookup(st, lookups));
        }
        match step(st, tok, lookups) {
            (Some(_), _) => {},
            (None, st2) => {
                assert(step(st, tok, ext) == step(st, tok, lookups));
                lemma_run_lookups(st2, toks.drop_first(), lookups, ext);
            },
        }
    }
}

/// Law: once a parse ends without asking for a lookup, more lookups change
/// nothing of it; so the parse that the caller repeats, adding one lookup at
/// a time, ends as a parse that resolved each host when it met it.
pub proof fn law_extra_lookups_change_nothing(
    args: Seq<String>,
    bind_addr: Ipv4Addr,
    max_workers: usize,
    lookups: Seq<Option<Vec<IpAddress>>>,
    more: Seq<Option<Vec<IpAddress>>>,
)
    requires
        !(parse_run(args, bind_addr, max_workers, lookups).0 is NeedsLookup),
    ensures
        parse_run(args, bind_addr, max_workers, lookups + more) == parse_run(
            args,
            bind_addr,
            max_workers,
            lookups,
        ),
{
    let ext = lookups + more;
    lemma_help_at(tokens(args));
    lemma_parse_run_reads(args, bind_addr, max_workers, lookups);
    lemma_parse_run_reads(args, bind_addr, max_workers, ext);
    assert(extends(ext, lookups));
    lemma_run_lookups(initial_state(bind_addr, max_workers), read_tokens(args), lookups, ext);
    let r = run(initial_state(bind_addr, max_workers), read_tokens(args), lookups);
    assert(run(initial_state(bind_addr, max_workers), read_tokens(args), ext) == r);
    if help_at(tokens(args)) < tokens(args).len() {
        assert(!(r.0 is NeedsLookup));
        assert(parse_run(args, bind_addr, max_workers, lookups) == (ArgsEnd::Help, r.1));
        assert(parse_run(args, bind_addr, max_workers, ext) == (ArgsEnd::Help, r.1));
    }
}

/// Law: a parse asks for a lookup only when it has used every lookup it was
/// given, so each appended outcome answers exactly the host it asked for.
pub proof fn law_lookup_asked_after_all_used(
    args: Seq<String>,
    bind_addr: Ipv4Addr,
    max_workers: usize,
    lookups: Seq<Option<Vec<IpAddress>>>,
)
    ensures
        parse_run(args, bind_addr, max_workers, lookups).1.used <= lookups.len(),
        parse_run(args, bind_addr, max_workers, lookups).0 is NeedsLookup ==> parse_run(
            args,
            bind_addr,
            max_workers,
            lookups,
        ).1.used == lookups.len(),
{
    lemma_parse_run_reads(args, bind_addr, max_workers, lookups);
    lemma_run_lookups(initial_state(bind_addr, max_workers), read_tokens(args), lookups, lookups);
}

/// A run uses at most one lookup per token, and where it asks for one the
/// token that asks has used none.
proof fn lemma_run_used_bound(st: ArgsState, toks: Seq<Seq<char>>, lookups: Seq<Option<Vec<IpAddress>>>)
    ensures
        run(st, toks, lookups).1.used + (if run(st, toks, lookups).0 is NeedsLookup {
            1int
        } else {
            0int
        }) <= st.used + toks.len(),
    decreases toks.len(),
{
    if toks.len() > 0 {
        match step(st, toks[0], lookups) {
            (Some(_), _) => {},
            (None, st2) => {
                lemma_run_used_bound(st2, toks.drop_first(), lookups);
            },
        }
    }
}

/// Law: a parse uses at most one lookup per token, and asks for another only
/// while fewer lookups than tokens have been given; so the caller that
/// appends one lookup per request reaches an answer after at most as many
/// lookups as there are tokens.
pub proof fn law_lookups_bounded_by_tokens(
    args: Seq<String>,
    bind_addr: Ipv4Addr,
    max_workers: usize,
    lookups: Seq<Option<Vec<IpAddress>>>,
)
    ensures
        parse_run(args, bind_addr, max_workers, lookups).1.used <= args.len(),
        parse_run(args, bind_addr, max_workers, lookups).0 is NeedsLookup ==> lookups.len()
            < args.len(),
{
    lemma_parse_run_reads(args, bind_addr, max_workers, lookups);
    lemma_run_lookups(initial_state(bind_addr, max_workers), read_tokens(args), lookups, lookups);
    lemma_run_used_bound(initial_state(bind_addr, max_workers), read_tokens(args), lookups);
}

/// The token that gives rule `r` after `--tcp` or `--udp`:
/// `<listen port>:<target ip>:<target port>`.
pub open spec fn rule_token(r: Rule) -> Seq<char> {
    decimal(r.listen_port as nat) + seq![':'] + ipv4_text(r.target_address.ip) + seq![':'] + decimal(
        r.target_address.port as nat,
    )
}

/// Decimal numbers hold no `:`.
proof fn lemma_decimal_no_colon(n: nat)
    ensures
        forall|i: int| 0 <= i < decimal(n).len() ==> decimal(n)[i] != ':',
{
    lemma_decimal(n);
    assert forall|i: int| 0 <= i < decimal(n).len() implies decimal(n)[i] != ':' by {
        assert(is_digit(decimal(n)[i]));
    }
}

/// Dotted-decimal addresses hold no `:`.
proof fn lemma_ipv4_text_no_colon(a: Ipv4Addr)
    ensures
        forall|i: int| 0 <= i < ipv4_text(a).len() ==> ipv4_text(a)[i] != ':',
{
    lemma_decimal_no_colon(a.a as nat);
    lemma_decimal_no_colon(a.b as nat);
    lemma_decimal_no_colon(a.c as nat);
    lemma_decimal_no_colon(a.d as nat);
    let t = ipv4_text(a);
    let x0 = decimal(a.a as nat);
    let x1 = decimal(a.b as nat);
    let x2 = decimal(a.c as nat);
    let x3 = decimal(a.d as nat);
    assert forall|i: int| 0 <= i < t.len() implies t[i] != ':' by {
        let l0 = x0.len() as int;
        let l1 = l0 + 1 + x1.len();
        let l2 = l1 + 1 + x2.len();
        if i < l0 {
            assert(t[i] == x0[i]);
        } else if i == l0 || i == l1 || i == l2 {
            assert(t[i] == '.');
        } else if i < l1 {
            assert(t[i] == x1[i - l0 - 1]);
        } else if i < l2 {
            assert(t[i] == x2[i - l1 - 1]);
        } else {
            assert(t[i] == x3[i - l2 - 1]);
        }
    }
}

/// Law: the token written from a rule reads back as that rule, with no
/// lookup, whatever lookups there are.
pub proof fn law_rule_token_roundtrip(r: Rule, next: Option<Option<Ipv4Addr>>)
    ensures
        read_rule(r.protocol, rule_token(r), next) == RuleRead::Read(r),
        !takes_lookup(rule_token(r)),
{
    let x0 = decimal(r.listen_port as nat);
    let x1 = ipv4_text(r.target_address.ip);
    let x2 = decimal(r.target_address.port as nat);
    lemma_decimal_no_colon(r.listen_port as nat);
    lemma_decimal_no_colon(r.target_address.port as nat);
    lemma_ipv4_text_no_colon(r.target_address.ip);
    law_u16_text_roundtrip(r.listen_port);
    law_u16_text_roundtrip(r.target_address.port);
    law_ipv4_text_roundtrip(r.target_address.ip);
    let rest = x1 + seq![':'] + x2;
    assert(rule_token(r) =~= x0 + seq![':'] + rest);
    lemma_field_cut(x0, ':', rest, 1);
    lemma_field_cut(x0, ':', rest, 2);
    lemma_field_cut(x1, ':', x2, 1);
    lemma_field_whole(x2, ':', 0);
}

/// The flag that announces a rule of protocol `p`.
pub open spec fn protocol_flag(p: Protocol) -> Seq<char> {
    match p {
        Protocol::TCP => "--tcp"@,
        Protocol::UDP => "--udp"@,
    }
}

/// The flags are distinct words that begin with `-`.
proof fn lemma_flag_words()
    ensures
        "--help"@.len() == 6 && "--help"@[0] == '-',
        "--tcp"@.len() == 5 && "--tcp"@[0] == '-',
        "--udp"@.len() == 5 && "--udp"@[0] == '-',
        "--bind"@.len() == 6 && "--bind"@[0] == '-',
        "--max-workers"@.len() == 13 && "--max-workers"@[0] == '-',
        "--debug"@.len() == 7 && "--debug"@[0] == '-',
        "--tcp"@ != "--udp"@,
        "--bind"@ != "--help"@,
{
    reveal_strlit("--help");
    reveal_strlit("--tcp");
    reveal_strlit("--udp");
    reveal_strlit("--bind");
    reveal_strlit("--max-workers");
    reveal_strlit("--debug");
    assert("--tcp"@[2] != "--udp"@[2]);
    assert("--bind"@[2] != "--help"@[2]);
}

/// A token that begins with a digit is no flag.
proof fn lemma_digit_token_no_flag(t: Seq<char>)
    requires
        t.len() > 0,
        is_digit(t[0]),
    ensures
        !flag_word(t),
{
    lemma_flag_words();
}

/// A rule token begins with a digit.
proof fn lemma_rule_token_digit(r: Rule)
    ensures
        rule_token(r).len() > 0,
        is_digit(rule_token(r)[0]),
        !flag_word(rule_token(r)),
{
    lemma_decimal(r.listen_port as nat);
    assert(rule_token(r)[0] == decimal(r.listen_port as nat)[0]);
    lemma_digit_token_no_flag(rule_token(r));
}

/// The command line that gives the rules `rs`, in order, each as its flag
/// and its token.
pub open spec fn rules_command_line(rs: Seq<Rule>) -> Seq<Seq<char>>
    decreases rs.len(),
{
    if rs.len() == 0 {
        Seq::empty()
    } else {
        seq![protocol_flag(rs[0].protocol), rule_token(rs[0])] + rules_command_line(rs.drop_first())
    }
}

/// A rule's flag and token add that rule and nothing else.
proof fn lemma_rule_pair(st: ArgsState, r: Rule, rest: Seq<Seq<char>>, lookups: Seq<Option<Vec<IpAddress>>>)
    requires
        !st.expect_bind_addr,
        !st.expect_max_workers,
    ensures
        run(st, seq![protocol_flag(r.protocol), rule_token(r)] + rest, lookups) == run(
            ArgsState { rules: st.rules.push(r), expect_rule: None, ..st },
            rest,
            lookups,
        ),
{
    lemma_flag_words();
    lemma_rule_token_digit(r);
    let t = rule_token(r);
    let toks = seq![protocol_flag(r.protocol), t] + rest;
    let st1 = ArgsState { expect_rule: Some(r.protocol), ..st };
    law_rule_token_roundtrip(r, next_lookup(st1, lookups));
    assert(toks[0] == protocol_flag(r.protocol));
    assert(step(st, toks[0], lookups) == (None::<ArgsEnd>, st1));
    assert(toks.drop_first()[0] == t);
    assert(toks.drop_first().drop_first() =~= rest);
    let st2 = ArgsState { rules: st.rules.push(r), expect_rule: None, ..st };
    assert(step(st1, t, lookups) == (None::<ArgsEnd>, st2));
    assert(run(st, toks, lookups) == run(st1, toks.drop_first(), lookups));
    assert(run(st1, toks.drop_first(), lookups) == run(st2, toks.drop_first().drop_first(), lookups));
}

/// The rules command line read from a state that expects nothing adds its
/// rules and finishes.
proof fn lemma_rules_command_line(st: ArgsState, rs: Seq<Rule>, lookups: Seq<Option<Vec<IpAddress>>>)
    requires
        !st.expect_bind_addr,
        !st.expect_max_workers,
        st.expect_rule is None,
    ensures
        run(st, rules_command_line(rs), lookups) == (
            ArgsEnd::Finished,
            ArgsState { rules: st.rules + rs, ..st },
        ),
        forall|j: int|
            0 <= j < rules_command_line(rs).len() ==> rules_command_line(rs)[j] != "--help"@,
    decreases rs.len(),
{
    lemma_flag_words();
    if rs.len() == 0 {
        assert(st.rules + rs =~= st.rules);
    } else {
        let r = rs[0];
        let st2 = ArgsState { rules: st.rules.push(r), expect_rule: None, ..st };
        lemma_rule_pair(st, r, rules_command_line(rs.drop_first()), lookups);
        lemma_rules_command_line(st2, rs.drop_first(), lookups);
        assert(st.rules.push(r) + rs.drop_first() =~= st.rules + rs);
        lemma_rule_token_digit(r);
        let c = rules_command_line(rs);
        let tail = rules_command_line(rs.drop_first());
        assert forall|j: int| 0 <= j < c.len() implies c[j] != "--help"@ by {
            if j >= 2 {
                assert(c[j] == tail[j - 2]);
            }
        }
    }
}

/// A rule whose target is given by a host name, as a command line writes it.
pub struct HostRule {
    pub protocol: Protocol,
    pub listen_port: u16,
    pub host: Seq<char>,
    pub port: u16,
}

/// `h` is a host name: it holds no `:` and is no IPv4 address.
pub open spec fn is_host_name(h: Seq<char>) -> bool {
    (forall|i: int| 0 <= i < h.len() ==> h[i] != ':') && spec_parse_ipv4(h) is None
}

/// The token `<listen port>:<host>:<target port>` of a host rule.
pub open spec fn host_rule_token(h: HostRule) -> Seq<char> {
    decimal(h.listen_port as nat) + seq![':'] + h.host + seq![':'] + decimal(h.port as nat)
}

/// The command line that gives the host rules `hs`, each as its flag and token.
pub open spec fn host_rules_command_line(hs: Seq<HostRule>) -> Seq<Seq<char>>
    decreases hs.len(),
{
    if hs.len() == 0 {
        Seq::empty()
    } else {
        seq![protocol_flag(hs[0].protocol), host_rule_token(hs[0])] + host_rules_command_line(
            hs.drop_first(),
        )
    }
}

/// The rule that host rule `h` gives once its host resolved to `a`.
pub open spec fn resolved_rule(h: HostRule, a: Ipv4Addr) -> Rule {
    Rule {
        protocol: h.protocol,
        listen_port: h.listen_port,
        target_address: SocketAddrV4 { ip: a, port: h.port },
    }
}

/// A host rule's token reads as its rule with the address the lookup gave,
/// and takes that lookup.
proof fn lemma_host_rule_token(h: HostRule, a: Ipv4Addr)
    requires
        is_host_name(h.host),
    ensures
        read_rule(h.protocol, host_rule_token(h), Some(Some(a))) == RuleRead::Read(resolved_rule(h, a)),
        takes_lookup(host_rule_token(h)),
        !flag_word(host_rule_token(h)),
{
    let x0 = decimal(h.listen_port as nat);
    let x2 = decimal(h.port as nat);
    lemma_decimal_no_colon(h.listen_port as nat);
    lemma_decimal_no_colon(h.port as nat);
    law_u16_text_roundtrip(h.listen_port);
    law_u16_text_roundtrip(h.port);
    let rest = h.host + seq![':'] + x2;
    assert(host_rule_token(h) =~= x0 + seq![':'] + rest);
    lemma_field_cut(x0, ':', rest, 1);
    lemma_field_cut(x0, ':', rest, 2);
    lemma_field_cut(h.host, ':', x2, 1);
    lemma_field_whole(x2, ':', 0);
    lemma_decimal(h.listen_port as nat);
    assert(host_rule_token(h)[0] == x0[0]);
    lemma_digit_token_no_flag(host_rule_token(h));
}

/// The rules that host rules `hs` give with the lookups from position `u`.
pub open spec fn resolved_rules(hs: Seq<HostRule>, lookups: Seq<Option<Vec<IpAddress>>>, u: int) -> Seq<Rule> {
    Seq::new(hs.len(), |k: int| resolved_rule(hs[k], resolved(lookups[u + k]).unwrap()))
}

/// A host rules command line, read from a state that expects nothing, takes
/// one lookup per rule, in order.
proof fn lemma_host_rules_command_line(
    st: ArgsState,
    hs: Seq<HostRule>,
    lookups: Seq<Option<Vec<IpAddress>>>,
)
    requires
        !st.expect_bind_addr,
        !st.expect_max_workers,
        st.expect_rule is None,
        st.used + hs.len() <= lookups.len(),
        forall|k: int| 0 <= k < hs.len() ==> is_host_name(#[trigger] hs[k].host),
        forall|k: int| 0 <= k < hs.len() ==> ((#[trigger] resolved(lookups[st.used + k])) is Some),
    ensures
        run(st, host_rules_command_line(hs), lookups) == (
            ArgsEnd::Finished,
            ArgsState {
                rules: st.rules + resolved_rules(hs, lookups, st.used as int),
                used: st.used + hs.len(),
                ..st
            },
        ),
        forall|j: int|
            0 <= j < host_rules_command_line(hs).len() ==> host_rules_command_line(hs)[j] != "--help"@,
    decreases hs.len(),
{
    lemma_flag_words();
    if hs.len() == 0 {
        assert(st.rules + resolved_rules(hs, lookups, st.used as int) =~= st.rules);
    } else {
        let h = hs[0];
        assert(resolved(lookups[st.used + 0int]) is Some);
        let a = resolved(lookups[st.used as int]).unwrap();
        let t = host_rule_token(h);
        let tail = hs.drop_first();
        let rest = host_rules_command_line(tail);
        let toks = seq![protocol_flag(h.protocol), t] + rest;
        let st1 = ArgsState { expect_rule: Some(h.protocol), ..st };
        let st2 = ArgsState {
            rules: st.rules.push(resolved_rule(h, a)),
            expect_rule: None,
            used: st.used + 1,
            ..st
        };
        lemma_host_rule_token(h, a);
        assert(next_lookup(st1, lookups) == Some(Some(a)));
        assert(toks[0] == protocol_flag(h.protocol));
        assert(step(st, toks[0], lookups) == (None::<ArgsEnd>, st1));
        assert(toks.drop_first()[0] == t);
        assert(toks.drop_first().drop_first() =~= rest);
        assert(step(st1, t, lookups) == (None::<ArgsEnd>, st2));
        assert(run(st, toks, lookups) == run(st1, toks.drop_first(), lookups));
        assert(run(st1, toks.drop_first(), lookups) == run(st2, rest, lookups));
        assert forall|k: int| 0 <= k < tail.len() implies is_host_name(#[trigger] tail[k].host) by {
            assert(tail[k] == hs[k + 1]);
        }
        assert forall|k: int| 0 <= k < tail.len() implies ((#[trigger] resolved(lookups[st2.used + k])) is Some) by {
            assert(st2.used + k == st.used + (k + 1));
            assert(resolved(lookups[st.used + (k + 1)]) is Some);
        }
        lemma_host_rules_command_line(st2, tail, lookups);
        assert(st2.rules + resolved_rules(tail, lookups, st2.used as int) =~= st.rules
            + resolved_rules(hs, lookups, st.used as int)) by {
            assert forall|k: int| 0 <= k < tail.len() implies resolved_rules(tail, lookups, st2.used as int)[k]
                == resolved_rules(hs, lookups, st.used as int)[k + 1] by {
                assert(tail[k] == hs[k + 1]);
                assert(st2.used + k == st.used + (k + 1));
            }
        }
        let c = host_rules_command_line(hs);
        lemma_host_rule_token(h, a);
        assert forall|j: int| 0 <= j < c.len() implies c[j] != "--help"@ by {
            if j >= 2 {
                assert(c[j] == rest[j - 2]);
            }
        }
    }
}

/// Law: every rule whose target is a host name gets the address of its own
/// lookup.  A command line of such rules, read with lookups that each resolve,
/// takes one lookup per rule in order: the `k`-th rule's target is the first
/// IPv4 address of the `k`-th lookup.
pub proof fn law_each_host_gets_its_own_lookup(
    hs: Seq<HostRule>,
    args: Seq<String>,
    bind_addr: Ipv4Addr,
    max_workers: usize,
    lookups: Seq<Option<Vec<IpAddress>>>,
)
    requires
        tokens(args) == host_rules_command_line(hs),
        hs.len() <= lookups.len(),
        forall|k: int| 0 <= k < hs.len() ==> is_host_name(#[trigger] hs[k].host),
        forall|k: int| 0 <= k < hs.len() ==> ((#[trigger] resolved(lookups[k])) is Some),
    ensures
        parse_run(args, bind_addr, max_workers, lookups).0 is Finished,
        parse_run(args, bind_addr, max_workers, lookups).1.used == hs.len(),
        parse_run(args, bind_addr, max_workers, lookups).1.rules.len() == hs.len(),
        forall|k: int|
            0 <= k < hs.len() ==> #[trigger] parse_run(args, bind_addr, max_workers, lookups).1.rules[k]
                == (Rule {
                protocol: hs[k].protocol,
                listen_port: hs[k].listen_port,
                target_address: SocketAddrV4 { ip: first_v4(lookups[k]->Some_0@).unwrap(), port: hs[k].port },
            }),
{
    let st = initial_state(bind_addr, max_workers);
    assert forall|k: int| 0 <= k < hs.len() implies ((#[trigger] resolved(lookups[st.used + k])) is Some) by {
        assert(resolved(lookups[k]) is Some);
    }
    lemma_host_rules_command_line(st, hs, lookups);
    lemma_help_at(tokens(args));
    assert(st.rules + resolved_rules(hs, lookups, 0) =~= resolved_rules(hs, lookups, 0));
    assert forall|k: int| 0 <= k < hs.len() implies (lookups[k] is Some) by {
        assert(resolved(lookups[k]) is Some);
    }
}

/// Law: a command line made of rules, each as `--<protocol> <rule token>`,
/// yields exactly those rules in that order, takes no lookup and changes
/// neither the bind address nor the worker count.
pub proof fn law_rules_command_line(
    rs: Seq<Rule>,
    args: Seq<String>,
    bind_addr: Ipv4Addr,
    max_workers: usize,
    lookups: Seq<Option<Vec<IpAddress>>>,
)
    requires
        tokens(args) == rules_command_line(rs),
    ensures
        parse_run(args, bind_addr, max_workers, lookups) == (
            ArgsEnd::Finished,
            ArgsState { rules: rs, ..initial_state(bind_addr, max_workers) },
        ),
{
    let st = initial_state(bind_addr, max_workers);
    lemma_rules_command_line(st, rs, lookups);
    assert(st.rules + rs =~= rs);
    lemma_help_at(tokens(args));
}

/// Law: a rule token that is malformed before any lookup could matter (a bad
/// listen port, no host, or a literal address with a missing or bad target
/// port) ends the parse at that token with `BadRule`.
pub proof fn law_bad_rule_token_stops(
    st: ArgsState,
    p: Protocol,
    tok: Seq<char>,
    rest: Seq<Seq<char>>,
    lookups: Seq<Option<Vec<IpAddress>>>,
)
    requires
        !st.expect_bind_addr,
        !st.expect_max_workers,
        !flag_word(tok),
        read_rule(p, tok, None) is Invalid,
    ensures
        run(st, seq![protocol_flag(p), tok] + rest, lookups) == (
            ArgsEnd::BadRule,
            ArgsState { expect_rule: Some(p), ..st },
        ),
{
    lemma_flag_words();
    let toks = seq![protocol_flag(p), tok] + rest;
    let st1 = ArgsState { expect_rule: Some(p), ..st };
    assert(toks[0] == protocol_flag(p));
    assert(step(st, toks[0], lookups) == (None::<ArgsEnd>, st1));
    assert(toks.drop_first()[0] == tok);
    assert(read_rule(p, tok, next_lookup(st1, lookups)) is Invalid);
    assert(step(st1, tok, lookups) == (Some(ArgsEnd::BadRule), st1));
    assert(run(st, toks, lookups) == run(st1, toks.drop_first(), lookups));
}

/// Law: after any rules, a malformed rule token ends the whole parse with
/// `BadRule`, when `--help` is nowhere among the tokens.
pub proof fn law_bad_rule_after_rules(
    rs: Seq<Rule>,
    p: Protocol,
    tok: Seq<char>,
    rest: Seq<Seq<char>>,
    args: Seq<String>,
    bind_addr: Ipv4Addr,
    max_workers: usize,
    lookups: Seq<Option<Vec<IpAddress>>>,
)
    requires
        tokens(args) == rules_command_line(rs) + (seq![protocol_flag(p), tok] + rest),
        !has_help(tokens(args)),
        !flag_word(tok),
        read_rule(p, tok, None) is Invalid,
    ensures
        parse_run(args, bind_addr, max_workers, lookups).0 is BadRule,
{
    let st = initial_state(bind_addr, max_workers);
    lemma_help_at(tokens(args));
    lemma_rules_command_line(st, rs, lookups);
    lemma_run_append(st, rules_command_line(rs), seq![protocol_flag(p), tok] + rest, lookups);
    law_bad_rule_token_stops(
        ArgsState { rules: st.rules + rs, ..st },
        p,
        tok,
        rest,
        lookups,
    );
}

/// Whether `v` holds exactly the characters of `lit`.
fn is_word(v: &Vec<char>, lit: &str) -> (b: bool)
    ensures
        b == (v@ == lit@),
{
    let w = chars_of(lit);
    if v.len() != w.len() {
        return false;
    }
    let mut i: usize = 0;
    while i < v.len()
        invariant
            i <= v@.len(),
            v@.len() == w@.len(),
            w@ == lit@,
            forall|j: int| 0 <= j < i ==> v@[j] == w@[j],
        decreases v.len() - i,
    {
        if v[i] != w[i] {
            return false;
        }
        i = i + 1;
    }
    assert(v@ =~= w@);
    true
}

/// What reading a rule token gave, with a host to look up given by its bounds
/// in the token.
enum RuleReadExec {
    Invalid,
    Lookup(usize, usize),
    Unresolved,
    Read(Rule),
}

/// Reads the rule token `v` for protocol `p`, given the next lookup outcome if any.
fn read_rule_exec(v: &Vec<char>, p: Protocol, next: Option<Option<Ipv4Addr>>) -> (r: RuleReadExec)
    ensures
        match (r, read_rule(p, v@, next)) {
            (RuleReadExec::Invalid, RuleRead::Invalid) => true,
            (RuleReadExec::Lookup(a, b), RuleRead::Lookup(h)) => a <= b <= v@.len()
                && v@.subrange(a as int, b as int) == h,
            (RuleReadExec::Unresolved, RuleRead::Unresolved) => true,
            (RuleReadExec::Read(x), RuleRead::Read(y)) => x == y,
            _ => false,
        },
{
    let n = v.len();
    assert(v@.subrange(0, n as int) =~= v@);
    let (a0, b0) = match field_bounds(v, 0, n, ':', 0) {
        Some(f) => f,
        None => {
            return RuleReadExec::Invalid;
        },
    };
    let listen_port = match parse_u16_in(v, a0, b0) {
        Some(x) => x,
        None => {
            return RuleReadExec::Invalid;
        },
    };
    let (a1, b1) = match field_bounds(v, 0, n, ':', 1) {
        Some(f) => f,
        None => {
            return RuleReadExec::Invalid;
        },
    };
    let ip = match parse_ipv4_in(v, a1, b1) {
        Some(a) => a,
        None => match next {
            None => {
                return RuleReadExec::Lookup(a1, b1);
            },
            Some(None) => {
                return RuleReadExec::Unresolved;
            },
            Some(Some(a)) => a,
        },
    };
    let (a2, b2) = match field_bounds(v, 0, n, ':', 2) {
        Some(f) => f,
        None => {
            return RuleReadExec::Invalid;
        },
    };
    let port = match parse_u16_in(v, a2, b2) {
        Some(x) => x,
        None => {
            return RuleReadExec::Invalid;
        },
    };
    RuleReadExec::Read(
        Rule { protocol: p, listen_port, target_address: SocketAddrV4 { ip, port } },
    )
}

/// Parses the command-line tokens `args` (the program name, if present, is an
/// ordinary token and reads as nothing).
///
/// With `--help` among the tokens the answer is help, whatever the other
/// tokens; the tokens before it are still read for the bind address and the
/// worker count.  `lookups` holds the outcomes of the lookups asked for so far, in
/// the order asked: the addresses found, or `None` where the lookup failed.  A
/// rule whose host resolves to no IPv4 address is skipped.  `bind_addr` is set
/// by `--bind` and `max_workers` by `--max-workers`; `--debug` is accepted.
pub fn parse_args(
    args: &Vec<String>,
    bind_addr: &mut Ipv4Addr,
    max_workers: &mut usize,
    lookups: &Vec<Option<Vec<IpAddress>>>,
) -> (r: ParseOutcome)
    ensures
        outcome_matches(
            r,
            parse_run(args@, *old(bind_addr), *old(max_workers), lookups@).0,
            parse_run(args@, *old(bind_addr), *old(max_workers), lookups@).1,
        ),
        *final(bind_addr) == parse_run(args@, *old(bind_addr), *old(max_workers), lookups@).1.bind_addr,
        *final(max_workers) == parse_run(
            args@,
            *old(bind_addr),
            *old(max_workers),
            lookups@,
        ).1.max_workers,
{
    let ghost toks = tokens(args@);
    proof {
        lemma_help_at(toks);
    }
    let mut h: usize = 0;
    let mut found = false;
    while h < args.len() && !found
        invariant
            h <= args@.len(),
            toks == tokens(args@),
            forall|j: int| 0 <= j < h ==> toks[j] != "--help"@,
            found ==> h < args@.len() && toks[h as int] == "--help"@,
        decreases args.len() - h + (if found {
            0int
        } else {
            1int
        }),
    {
        assert(toks[h as int] == args@[h as int]@);
        let token = chars_of(args[h].as_str());
        if is_word(&token, "--help") {
            found = true;
        } else {
            h = h + 1;
        }
    }
    assert(h as int == help_at(toks)) by {
        if (h as int) < help_at(toks) {
            assert(toks[h as int] == "--help"@);
        } else if help_at(toks) < h as int {
            assert(toks[help_at(toks)] == "--help"@);
        }
    }
    let ghost ptoks = toks.take(h as int);
    let ghost init = initial_state(*bind_addr, *max_workers);
    proof {
        lemma_parse_run_reads(args@, *bind_addr, *max_workers, lookups@);
        assert(ptoks == read_tokens(args@));
    }
    let mut rules: Vec<Rule> = Vec::new();
    let mut expect_rule: Option<Protocol> = None;
    let mut expect_bind_addr = false;
    let mut expect_max_workers = false;
    let mut used: usize = 0;
    let mut i: usize = 0;
    if !found {
        assert(ptoks =~= toks);
    }
    assert(ptoks.skip(0) =~= ptoks);
    assert(rules@ =~= Seq::<Rule>::empty());
    while i < h
        invariant
            i <= h <= args@.len(),
            toks == tokens(args@),
            ptoks == toks.take(h as int),
            h as int == help_at(toks),
            found <==> (h as int) < toks.len(),
            found ==> parse_run(args@, *old(bind_addr), *old(max_workers), lookups@) == (if run(
                init,
                ptoks,
                lookups@,
            ).0 is NeedsLookup {
                run(init, ptoks, lookups@)
            } else {
                (ArgsEnd::Help, run(init, ptoks, lookups@).1)
            }),
            !found ==> parse_run(args@, *old(bind_addr), *old(max_workers), lookups@) == run(
                init,
                ptoks,
                lookups@,
            ),
            used <= lookups@.len(),
            run(init, ptoks, lookups@) == run(
                ArgsState {
                    rules: rules@,
                    expect_rule,
                    expect_bind_addr,
                    expect_max_workers,
                    bind_addr: *bind_addr,
                    max_workers: *max_workers,
                    used: used as nat,
                },
                ptoks.skip(i as int),
                lookups@,
            ),
            init == initial_state(*old(bind_addr), *old(max_workers)),
        decreases h - i,
    {
        let ghost st = ArgsState {
            rules: rules@,
            expect_rule,
            expect_bind_addr,
            expect_max_workers,
            bind_addr: *bind_addr,
            max_workers: *max_workers,
            used: used as nat,
        };
        let ghost rest = ptoks.skip(i as int);
        assert(rest[0] == args@[i as int]@);
        assert(rest.drop_first() =~= ptoks.skip(i + 1));
        let token = chars_of(args[i].as_str());
        if is_word(&token, "--tcp") {
            expect_rule = Some(Protocol::TCP);
            i = i + 1;
            continue;
        }
        if is_word(&token, "--udp") {
            expect_rule = Some(Protocol::UDP);
            i = i + 1;
            continue;
        }
        if is_word(&token, "--bind") {
            expect_bind_addr = true;
            i = i + 1;
            continue;
        }
        if is_word(&token, "--max-workers") {
            expect_max_workers = true;
            i = i + 1;
            continue;
        }
        if is_word(&token, "--debug") {
            i = i + 1;
            continue;
        }
        assert(token@.subrange(0, token@.len() as int) =~= token@);
        if expect_bind_addr {
            match parse_ipv4_in(&token, 0, token.len()) {
                Some(a) => {
                    *bind_addr = a;
                },
                None => {
                    return if found {
                        ParseOutcome::Help
                    } else {
                        ParseOutcome::BadBindAddress
                    };
                },
            }
            expect_bind_addr = false;
            i = i + 1;
            continue;
        }
        if expect_max_workers {
            match parse_usize_in(&token, 0, token.len()) {
                Some(n) => {
                    *max_workers = n;
                },
                None => {
                    return if found {
                        ParseOutcome::Help
                    } else {
                        ParseOutcome::BadWorkerCount
                    };
                },
            }
            expect_max_workers = false;
            i = i + 1;
            continue;
        }
        match expect_rule {
            None => {},
            Some(p) => {
                let next = if used < lookups.len() {
                    match &lookups[used] {
                        Some(addrs) => Some(first_ipv4(addrs)),
                        None => Some(None),
                    }
                } else {
                    None
                };
                assert(next == next_lookup(st, lookups@));
                match read_rule_exec(&token, p, next) {
                    RuleReadExec::Invalid => {
                        return if found {
                            ParseOutcome::Help
                        } else {
                            ParseOutcome::BadRule
                        };
                    },
                    RuleReadExec::Lookup(a, b) => {
                        let host = args[i].as_str().substring_char(a, b);
                        return ParseOutcome::NeedsLookup(String::from_str(host));
                    },
                    RuleReadExec::Unresolved => {
                        used = used + 1;
                    },
                    RuleReadExec::Read(rule) => {
                        if used < lookups.len() && takes_lookup_exec(&token) {
                            used = used + 1;
                        }
                        rules.push(rule);
                    },
                }
                expect_rule = None;
            },
        }
        i = i + 1;
    }
    assert(ptoks.skip(i as int).len() == 0);
    if found {
        ParseOutcome::Help
    } else if rules.len() == 0 {
        ParseOutcome::Finished(None)
    } else {
        ParseOutcome::Finished(Some(rules))
    }
}

/// Whether the rule token `v` takes a lookup.
fn takes_lookup_exec(v: &Vec<char>) -> (b: bool)
    ensures
        b == takes_lookup(v@),
{
    let n = v.len();
    assert(v@.subrange(0, n as int) =~= v@);
    match field_bounds(v, 0, n, ':', 0) {
        None => false,
        Some((a0, b0)) => match parse_u16_in(v, a0, b0) {
            None => false,
            Some(_) => match field_bounds(v, 0, n, ':', 1) {
                None => false,
                Some((a1, b1)) => parse_ipv4_in(v, a1, b1).is_none(),
            },
        },
    }
}

} // verus!
