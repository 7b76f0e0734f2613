//! The link-address probe's decision rules: picking a hardware address out
//! of the local neighbor table's text, with the whole lookup best-effort.

use vstd::prelude::*;
use vstd::string::{StrSliceExecFns, StringExecFns};

use crate::fetchers::traits::Fetcher;
use crate::text::{
    ascii_upper, contains_seq, dash_to_colon, find_char, first_idx, replace_dashes, spec_split,
    spec_upper, spec_ws_tokens, split_char, split_ws, str_contains, str_eq,
};

verus! {

/// What one neighbor-table line names for `ip`: its hardware address,
/// uppercased, taken from the fourth column of a line whose first column is
/// the address - unless the entry is the all-zero or wildcard placeholder.
pub open spec fn arp_table_line_mac(line: Seq<char>, ip: Seq<char>) -> Option<Seq<char>> {
    let parts = spec_ws_tokens(line);
    if parts.len() >= 6 && parts[0] == ip && parts[3] != "00:00:00:00:00:00"@ && parts[3]
        != "*"@ {
        Some(spec_upper(parts[3]))
    } else {
        None
    }
}

pub open spec fn arp_table_search(lines: Seq<Seq<char>>, ip: Seq<char>) -> Option<Seq<char>>
    decreases lines.len(),
{
    if lines.len() == 0 {
        None
    } else {
        match arp_table_line_mac(lines[0], ip) {
            Some(m) => Some(m),
            None => arp_table_search(lines.drop_first(), ip),
        }
    }
}

/// The address the kernel's neighbor table text holds for `ip`: the first
/// matching line past the header.
pub open spec fn arp_table_mac(content: Seq<char>, ip: Seq<char>) -> Option<Seq<char>> {
    arp_table_search(spec_split(content, '\n').drop_first(), ip)
}

/// Index of the first token equal to `tok`.
pub open spec fn token_index(parts: Seq<Seq<char>>, tok: Seq<char>) -> Option<int>
    decreases parts.len(),
{
    if parts.len() == 0 {
        None
    } else if parts[0] == tok {
        Some(0int)
    } else {
        match token_index(parts.drop_first(), tok) {
            Some(i) => Some(i + 1),
            None => None,
        }
    }
}

proof fn lemma_token_index_at(parts: Seq<Seq<char>>, tok: Seq<char>, m: int)
    requires
        0 <= m <= parts.len(),
        forall|j: int| 0 <= j < m ==> parts[j] != tok,
        m < parts.len() ==> parts[m] == tok,
    ensures
        m == parts.len() ==> token_index(parts, tok) is None,
        m < parts.len() ==> token_index(parts, tok) == Some(m),
    decreases m,
{
    if m == 0 {
    } else {
        assert(parts[0] != tok);
        assert forall|j: int| 0 <= j < m - 1 implies parts.drop_first()[j] != tok by {
            assert(parts.drop_first()[j] == parts[j + 1]);
        }
        if m < parts.len() {
            assert(parts.drop_first()[m - 1] == parts[m]);
        }
        lemma_token_index_at(parts.drop_first(), tok, m - 1);
    }
}

/// The address a `neigh`-style listing reports: the token right after the
/// `lladdr` keyword, uppercased.
pub open spec fn neigh_output_mac(content: Seq<char>) -> Option<Seq<char>> {
    let parts = spec_ws_tokens(content);
    match token_index(parts, "lladdr"@) {
        Some(i) => if i + 1 < parts.len() {
            Some(spec_upper(parts[i + 1]))
        } else {
            None
        },
        None => None,
    }
}

/// What one `arp` listing line names for `ip`: the third column of a line
/// mentioning the address whose second column marks a hardware entry.
pub open spec fn arp_output_line_mac(line: Seq<char>, ip: Seq<char>) -> Option<Seq<char>> {
    let parts = spec_ws_tokens(line);
    if contains_seq(line, ip) && parts.len() >= 3 && parts[1] == "ether"@ {
        Some(spec_upper(parts[2]))
    } else {
        None
    }
}

pub open spec fn arp_output_search(lines: Seq<Seq<char>>, ip: Seq<char>) -> Option<Seq<char>>
    decreases lines.len(),
{
    if lines.len() == 0 {
        None
    } else {
        match arp_output_line_mac(lines[0], ip) {
            Some(m) => Some(m),
            None => arp_output_search(lines.drop_first(), ip),
        }
    }
}

pub open spec fn arp_output_mac(content: Seq<char>, ip: Seq<char>) -> Option<Seq<char>> {
    arp_output_search(spec_split(content, '\n'), ip)
}

/// What one tabular `arp` line (dash-separated hardware column) names for
/// `ip`: the second column with dashes turned to colons, when that gives a
/// full six-group address.
pub open spec fn arp_table_line_mac_dashed(line: Seq<char>, ip: Seq<char>) -> Option<Seq<char>> {
    let parts = spec_ws_tokens(line);
    if contains_seq(line, ip) && parts.len() >= 2 && dash_to_colon(parts[1]).len() == 17 {
        Some(spec_upper(dash_to_colon(parts[1])))
    } else {
        None
    }
}

pub open spec fn arp_dashed_search(lines: Seq<Seq<char>>, ip: Seq<char>) -> Option<Seq<char>>
    decreases lines.len(),
{
    if lines.len() == 0 {
        None
    } else {
        match arp_table_line_mac_dashed(lines[0], ip) {
            Some(m) => Some(m),
            None => arp_dashed_search(lines.drop_first(), ip),
        }
    }
}

pub open spec fn arp_dashed_mac(content: Seq<char>, ip: Seq<char>) -> Option<Seq<char>> {
    arp_dashed_search(spec_split(content, '\n'), ip)
}

/// What one colon-grouped `arp` line names for `ip`: the fourth column,
/// when it looks like a full six-group address.
pub open spec fn arp_line_mac_colon(line: Seq<char>, ip: Seq<char>) -> Option<Seq<char>> {
    let parts = spec_ws_tokens(line);
    if contains_seq(line, ip) && parts.len() >= 4 && first_idx(parts[3], ':') is Some
        && parts[3].len() == 17 {
        Some(spec_upper(parts[3]))
    } else {
        None
    }
}

pub open spec fn arp_colon_search(lines: Seq<Seq<char>>, ip: Seq<char>) -> Option<Seq<char>>
    decreases lines.len(),
{
    if lines.len() == 0 {
        None
    } else {
        match arp_line_mac_colon(lines[0], ip) {
            Some(m) => Some(m),
            None => arp_colon_search(lines.drop_first(), ip),
        }
    }
}

pub open spec fn arp_colon_mac(content: Seq<char>, ip: Seq<char>) -> Option<Seq<char>> {
    arp_colon_search(spec_split(content, '\n'), ip)
}

pub struct MacFetcher;

impl MacFetcher {
    pub fn new() -> (r: Self) {
        MacFetcher
    }

    /// Picks the hardware address for `ip` out of the kernel neighbor
    /// table's text, skipping the header line.
    pub fn mac_from_arp_table(content: &str, ip: &str) -> (r: Option<String>)
        ensures
            match r {
                Some(m) => arp_table_mac(content@, ip@) == Some(m@),
                None => arp_table_mac(content@, ip@) is None,
            },
    {
        let lines = split_char(content, '\n');
        let ghost lspec = spec_split(content@, '\n');
        let n = lines.len();
        proof {
            crate::text::lemma_split_len(content@, '\n');
            assert(lspec.skip(1) =~~= lspec.drop_first());
        }
        let mut i: usize = 1;
        while i < n
            invariant
                lines.deep_view() =~~= lspec,
                lspec == spec_split(content@, '\n'),
                n == lines@.len(),
                n == lspec.len(),
                1 <= i <= n,
                arp_table_search(lspec.drop_first(), ip@) == arp_table_search(
                    lspec.skip(i as int),
                    ip@,
                ),
            decreases n - i,
        {
            proof {
                assert(lines.deep_view()[i as int] == lines@[i as int]@);
            }
            let parts = split_ws(lines[i].as_str());
            let ghost pv = spec_ws_tokens(lspec[i as int]);
            proof {
                assert(parts.deep_view() =~~= pv);
                assert(lspec.skip(i as int)[0] == lspec[i as int]);
                assert(lspec.skip(i as int).drop_first() =~~= lspec.skip(i as int + 1));
            }
            if parts.len() >= 6 {
                proof {
                    assert(parts.deep_view()[0] == parts@[0]@);
                    assert(parts.deep_view()[3] == parts@[3]@);
                }
                if str_eq(parts[0].as_str(), ip) && !str_eq(
                    parts[3].as_str(),
                    "00:00:00:00:00:00",
                ) && !str_eq(parts[3].as_str(), "*") {
                    let m = ascii_upper(parts[3].as_str());
                    proof {
                        assert(arp_table_line_mac(lspec[i as int], ip@) == Some(spec_upper(pv[3])));
                    }
                    return Some(m);
                }
            }
            proof {
                assert(arp_table_line_mac(lspec[i as int], ip@) is None);
            }
            i += 1;
        }
        proof {
            assert(lspec.skip(n as int) =~~= Seq::<Seq<char>>::empty());
        }
        None
    }

    /// Picks the hardware address out of a `neigh`-style listing: the token
    /// right after the `lladdr` keyword.
    pub fn mac_from_neigh_output(output: &str) -> (r: Option<String>)
        ensures
            match r {
                Some(m) => neigh_output_mac(output@) == Some(m@),
                None => neigh_output_mac(output@) is None,
            },
    {
        let parts = split_ws(output);
        let ghost pv = spec_ws_tokens(output@);
        let n = parts.len();
        let mut i: usize = 0;
        while i < n
            invariant
                parts.deep_view() =~~= pv,
                pv == spec_ws_tokens(output@),
                n == parts@.len(),
                n == pv.len(),
                i <= n,
                forall|j: int| 0 <= j < i ==> pv[j] != "lladdr"@,
            decreases n - i,
        {
            proof {
                assert(parts.deep_view()[i as int] == parts@[i as int]@);
            }
            if str_eq(parts[i].as_str(), "lladdr") {
                proof {
                    lemma_token_index_at(pv, "lladdr"@, i as int);
                }
                if i + 1 < n {
                    proof {
                        assert(parts.deep_view()[i as int + 1] == parts@[i as int + 1]@);
                    }
                    return Some(ascii_upper(parts[i + 1].as_str()));
                } else {
                    return None;
                }
            }
            i += 1;
        }
        proof {
            lemma_token_index_at(pv, "lladdr"@, n as int);
        }
        None
    }

    /// Picks the hardware address for `ip` out of an `arp` listing whose
    /// lines carry an `ether` type column.
    pub fn mac_from_arp_output(output: &str, ip: &str) -> (r: Option<String>)
        ensures
            match r {
                Some(m) => arp_output_mac(output@, ip@) == Some(m@),
                None => arp_output_mac(output@, ip@) is None,
            },
    {
        let lines = split_char(output, '\n');
        let ghost lspec = spec_split(output@, '\n');
        let n = lines.len();
        proof {
            assert(lspec.skip(0) =~~= lspec);
        }
        let mut i: usize = 0;
        while i < n
            invariant
                lines.deep_view() =~~= lspec,
                lspec == spec_split(output@, '\n'),
                n == lines@.len(),
                n == lspec.len(),
                i <= n,
                arp_output_search(lspec, ip@) == arp_output_search(lspec.skip(i as int), ip@),
            decreases n - i,
        {
            proof {
                assert(lines.deep_view()[i as int] == lines@[i as int]@);
            }
            let parts = split_ws(lines[i].as_str());
            let ghost pv = spec_ws_tokens(lspec[i as int]);
            proof {
                assert(parts.deep_view() =~~= pv);
                assert(lspec.skip(i as int)[0] == lspec[i as int]);
                assert(lspec.skip(i as int).drop_first() =~~= lspec.skip(i as int + 1));
            }
            if str_contains(lines[i].as_str(), ip) && parts.len() >= 3 {
                proof {
                    assert(parts.deep_view()[1] == parts@[1]@);
                    assert(parts.deep_view()[2] == parts@[2]@);
                }
                if str_eq(parts[1].as_str(), "ether") {
                    let m = ascii_upper(parts[2].as_str());
                    proof {
                        assert(arp_output_line_mac(lspec[i as int], ip@) == Some(
                            spec_upper(pv[2]),
                        ));
                    }
                    return Some(m);
                }
            }
            proof {
                assert(arp_output_line_mac(lspec[i as int], ip@) is None);
            }
            i += 1;
        }
        proof {
            assert(lspec.skip(n as int) =~~= Seq::<Seq<char>>::empty());
        }
        None
    }

    /// Picks the hardware address for `ip` out of a tabular `arp` listing
    /// whose hardware column is dash-separated.
    pub fn mac_from_arp_table_dashed(output: &str, ip: &str) -> (r: Option<String>)
        ensures
            match r {
                Some(m) => arp_dashed_mac(output@, ip@) == Some(m@),
                None => arp_dashed_mac(output@, ip@) is None,
            },
    {
        let lines = split_char(output, '\n');
        let ghost lspec = spec_split(output@, '\n');
        let n = lines.len();
        proof {
            assert(lspec.skip(0) =~~= lspec);
        }
        let mut i: usize = 0;
        while i < n
            invariant
                lines.deep_view() =~~= lspec,
                lspec == spec_split(output@, '\n'),
                n == lines@.len(),
                n == lspec.len(),
                i <= n,
                arp_dashed_search(lspec, ip@) == arp_dashed_search(lspec.skip(i as int), ip@),
            decreases n - i,
        {
            proof {
                assert(lines.deep_view()[i as int] == lines@[i as int]@);
            }
            let parts = split_ws(lines[i].as_str());
            let ghost pv = spec_ws_tokens(lspec[i as int]);
            proof {
                assert(parts.deep_view() =~~= pv);
                assert(lspec.skip(i as int)[0] == lspec[i as int]);
                assert(lspec.skip(i as int).drop_first() =~~= lspec.skip(i as int + 1));
            }
            if str_contains(lines[i].as_str(), ip) && parts.len() >= 2 {
                proof {
                    assert(parts.deep_view()[1] == parts@[1]@);
                }
                let rep = replace_dashes(parts[1].as_str());
                if rep.as_str().unicode_len() == 17 {
                    let m = ascii_upper(rep.as_str());
                    proof {
                        assert(arp_table_line_mac_dashed(lspec[i as int], ip@) == Some(
                            spec_upper(dash_to_colon(pv[1])),
                        ));
                    }
                    return Some(m);
                }
            }
            proof {
                assert(arp_table_line_mac_dashed(lspec[i as int], ip@) is None);
            }
            i += 1;
        }
        proof {
            assert(lspec.skip(n as int) =~~= Seq::<Seq<char>>::empty());
        }
        None
    }

    /// Picks the hardware address for `ip` out of an `arp` listing whose
    /// fourth column is the colon-grouped address.
    pub fn mac_from_arp_output_colon(output: &str, ip: &str) -> (r: Option<String>)
        ensures
            match r {
                Some(m) => arp_colon_mac(output@, ip@) == Some(m@),
                None => arp_colon_mac(output@, ip@) is None,
            },
    {
        let lines = split_char(output, '\n');
        let ghost lspec = spec_split(output@, '\n');
        let n = lines.len();
        proof {
            assert(lspec.skip(0) =~~= lspec);
        }
        let mut i: usize = 0;
        while i < n
            invariant
                lines.deep_view() =~~= lspec,
                lspec == spec_split(output@, '\n'),
                n == lines@.len(),
                n == lspec.len(),
                i <= n,
                arp_colon_search(lspec, ip@) == arp_colon_search(lspec.skip(i as int), ip@),
            decreases n - i,
        {
            proof {
                assert(lines.deep_view()[i as int] == lines@[i as int]@);
            }
            let parts = split_ws(lines[i].as_str());
            let ghost pv = spec_ws_tokens(lspec[i as int]);
            proof {
                assert(parts.deep_view() =~~= pv);
                assert(lspec.skip(i as int)[0] == lspec[i as int]);
                assert(lspec.skip(i as int).drop_first() =~~= lspec.skip(i as int + 1));
            }
            if str_contains(lines[i].as_str(), ip) && parts.len() >= 4 {
                proof {
                    assert(parts.deep_view()[3] == parts@[3]@);
                }
                let has_colon = match find_char(parts[3].as_str(), ':') {
                    Some(_) => true,
                    None => false,
                };
                if has_colon && parts[3].as_str().unicode_len() == 17 {
                    let m = ascii_upper(parts[3].as_str());
                    proof {
                        assert(arp_line_mac_colon(lspec[i as int], ip@) == Some(spec_upper(pv[3])));
                    }
                    return Some(m);
                }
            }
            proof {
                assert(arp_line_mac_colon(lspec[i as int], ip@) is None);
            }
            i += 1;
        }
        proof {
            assert(lspec.skip(n as int) =~~= Seq::<Seq<char>>::empty());
        }
        None
    }

    /// The probe's output for a neighbor-table outcome: the entry found, or
    /// the no-data sentinel. The lookup never affects the classification.
    pub fn evaluate(&self, entry: &Option<String>) -> (r: String)
        ensures
            match entry {
                Some(m) => r@ == m@,
                None => r@ == "[n/a]"@,
            },
    {
        match entry {
            Some(m) => m.clone(),
            None => String::from_str("[n/a]"),
        }
    }
}

impl Default for MacFetcher {
    fn default() -> (r: Self) {
        MacFetcher::new()
    }
}

impl Fetcher for MacFetcher {
    fn id(&self) -> (r: String)
        ensures
            r@ == "mac"@,
    {
        String::from_str("mac")
    }

    fn name(&self) -> (r: String)
        ensures
            r@ == "MAC Address"@,
    {
        String::from_str("MAC Address")
    }
}

} // verus!
