//! Parsers over the OS introspection listings the Process Probe reads:
//! which process ids a netstat-style listing shows on a port, whether a
//! listing names the expected external client, and which process ids a
//! socket-to-process lookup attributes to that client. The probe is
//! diagnostic only: the caller treats a listing it could not read as
//! "not claimed" and a kill it could not place as done.

use vstd::prelude::*;
use crate::text::{
    all_digits,
    contains_seq,
    contains_text,
    contains_text_ci,
    dec_seq,
    dec_val,
    lines_of,
    lower_of,
    parse_u32,
    render_u64,
    split_lines,
    split_ws,
    trim,
    trimmed,
    views_of,
    ws_tokens,
};

verus! {

/// The executable name of the external tunneling client, in lower case.
pub open spec fn client_name() -> Seq<char> {
    "cloudflared"@
}

/// The `:port` pattern a netstat-style line is searched for.
pub open spec fn port_pat(port: nat) -> Seq<char> {
    ":"@ + dec_seq(port)
}

/// The text names the external client somewhere, case-insensitively —
/// the best-effort match every process listing is held to.
pub open spec fn mentions_client_spec(s: Seq<char>) -> bool {
    contains_seq(lower_of(s), client_name())
}

/// Whether the listing names the external client.
pub fn mentions_client(text: &str) -> (r: bool)
    ensures
        r == mentions_client_spec(text@),
{
    contains_text_ci(text, "cloudflared")
}

/// The `:port` search pattern.
pub fn port_pattern(port: u16) -> (s: String)
    ensures
        s@ == port_pat(port as nat),
{
    let mut s = String::from_str(":");
    let digits = render_u64(port as u64);
    s.append(digits.as_str());
    s
}

/// Whether any of the per-process listings names the client. The
/// caller gathers one listing per candidate pid of the port; the port
/// counts as claimed exactly when one of them names the client.
pub fn any_mentions_client(listings: &Vec<String>) -> (r: bool)
    ensures
        r == exists|i: int|
            0 <= i < listings@.len() && mentions_client_spec(#[trigger] listings@[i]@),
{
    let n = listings.len();
    let mut i: usize = 0;
    while i < n
        invariant
            0 <= i <= n,
            n == listings@.len(),
            forall|j: int| 0 <= j < i ==> !mentions_client_spec(#[trigger] listings@[j]@),
        decreases n - i,
    {
        if mentions_client(listings[i].as_str()) {
            return true;
        }
        i = i + 1;
    }
    false
}

/// The executable path chosen from a PATH lookup's listing: its first
/// line, trimmed; the bare client name when the lookup failed or
/// listed nothing, so that the OS loader reports the failure at spawn
/// time instead.
pub fn resolve_client_path(lookup_ok: bool, listing: &str) -> (r: String)
    ensures
        ({
            let ls = lines_of(listing@);
            if lookup_ok && ls.len() > 0 && trimmed(ls[0]).len() > 0 {
                r@ == trimmed(ls[0])
            } else {
                r@ == client_name()
            }
        }),
{
    if !lookup_ok {
        return String::from_str("cloudflared");
    }
    let lines = split_lines(listing);
    if lines.len() == 0 {
        return String::from_str("cloudflared");
    }
    let first = trim(lines[0].as_str());
    if first.as_str().is_empty() {
        String::from_str("cloudflared")
    } else {
        first
    }
}

/// A token is the decimal rendering of a 32-bit process id.
pub open spec fn parses_u32(t: Seq<char>) -> bool {
    t.len() > 0 && all_digits(t) && dec_val(t) <= u32::MAX
}

/// The candidate pid a netstat-style line contributes for a port: its
/// last whitespace-separated token, where the line mentions `:port`
/// and the token is a number.
pub open spec fn netstat_line_pid(line: Seq<char>, port: nat) -> Option<u32> {
    if contains_seq(line, port_pat(port)) && ws_tokens(line).len() > 0 && parses_u32(
        ws_tokens(line).last(),
    ) {
        Some(dec_val(ws_tokens(line).last()) as u32)
    } else {
        None
    }
}

/// The candidate pids of a netstat-style listing, in line order.
pub open spec fn netstat_pids_spec(lines: Seq<Seq<char>>, port: nat) -> Seq<u32>
    decreases lines.len(),
{
    if lines.len() == 0 {
        Seq::empty()
    } else {
        match netstat_line_pid(lines.last(), port) {
            Some(p) => netstat_pids_spec(lines.drop_last(), port).push(p),
            None => netstat_pids_spec(lines.drop_last(), port),
        }
    }
}

/// The process ids a netstat-style listing shows on `port`. The caller
/// then asks the OS for each pid's process name and holds it to
/// `mentions_client` to decide whether the client claims the port.
pub fn netstat_candidate_pids(output: &str, port: u16) -> (r: Vec<u32>)
    ensures
        r@ == netstat_pids_spec(lines_of(output@), port as nat),
{
    let pat = port_pattern(port);
    let lines = split_lines(output);
    let ghost ls = lines_of(output@);
    let mut r: Vec<u32> = Vec::new();
    let mut i: usize = 0;
    proof {
        assert(ls.take(0) =~= Seq::<Seq<char>>::empty());
    }
    while i < lines.len()
        invariant
            0 <= i <= lines.len(),
            views_of(lines@) == ls,
            lines@.len() == ls.len(),
            pat@ == port_pat(port as nat),
            r@ == netstat_pids_spec(ls.take(i as int), port as nat),
        decreases lines.len() - i,
    {
        let line = &lines[i];
        proof {
            assert(line@ == ls[i as int]);
        }
        if contains_text(line.as_str(), pat.as_str()) {
            let toks = split_ws(line.as_str());
            if toks.len() > 0 {
                let last = &toks[toks.len() - 1];
                proof {
                    assert(last@ == ws_tokens(line@).last());
                }
                match parse_u32(last.as_str()) {
                    Some(v) => {
                        r.push(v);
                    },
                    None => {},
                }
            } else {
                proof {
                    assert(ws_tokens(line@).len() == 0);
                }
            }
        }
        proof {
            assert(ls.take(i + 1).drop_last() =~= ls.take(i as int));
            assert(ls.take(i + 1).last() == ls[i as int]);
        }
        i = i + 1;
    }
    proof {
        assert(ls.take(lines@.len() as int) =~= ls);
    }
    r
}

/// The candidate pid a socket-lookup line contributes: its second
/// whitespace-separated token, where the line names the client and the
/// token is a number.
pub open spec fn lsof_line_pid(line: Seq<char>) -> Option<u32> {
    if mentions_client_spec(line) && ws_tokens(line).len() >= 2 && parses_u32(ws_tokens(line)[1]) {
        Some(dec_val(ws_tokens(line)[1]) as u32)
    } else {
        None
    }
}

/// The candidate pids of a socket-lookup listing, in line order.
pub open spec fn lsof_pids_spec(lines: Seq<Seq<char>>) -> Seq<u32>
    decreases lines.len(),
{
    if lines.len() == 0 {
        Seq::empty()
    } else {
        match lsof_line_pid(lines.last()) {
            Some(p) => lsof_pids_spec(lines.drop_last()).push(p),
            None => lsof_pids_spec(lines.drop_last()),
        }
    }
}

/// The process ids a socket-to-process lookup attributes to the
/// external client: from each line naming the client, the pid column.
/// The caller kills each, best-effort.
pub fn lsof_claimant_pids(output: &str) -> (r: Vec<u32>)
    ensures
        r@ == lsof_pids_spec(lines_of(output@)),
{
    let lines = split_lines(output);
    let ghost ls = lines_of(output@);
    let mut r: Vec<u32> = Vec::new();
    let mut i: usize = 0;
    proof {
        assert(ls.take(0) =~= Seq::<Seq<char>>::empty());
    }
    while i < lines.len()
        invariant
            0 <= i <= lines.len(),
            views_of(lines@) == ls,
            lines@.len() == ls.len(),
            r@ == lsof_pids_spec(ls.take(i as int)),
        decreases lines.len() - i,
    {
        let line = &lines[i];
        proof {
            assert(line@ == ls[i as int]);
        }
        if mentions_client(line.as_str()) {
            let toks = split_ws(line.as_str());
            if toks.len() >= 2 {
                let second = &toks[1];
                proof {
                    assert(second@ == ws_tokens(line@)[1]);
                }
                match parse_u32(second.as_str()) {
                    Some(v) => {
                        r.push(v);
                    },
                    None => {},
                }
            } else {
                proof {
                    assert(ws_tokens(line@).len() < 2);
                }
            }
        }
        proof {
            assert(ls.take(i + 1).drop_last() =~= ls.take(i as int));
            assert(ls.take(i + 1).last() == ls[i as int]);
        }
        i = i + 1;
    }
    proof {
        assert(ls.take(lines@.len() as int) =~= ls);
    }
    r
}

} // verus!
