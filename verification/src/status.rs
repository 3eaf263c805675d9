//! The status listing: one record per VM row of the manager's tabular output.
//!
//! A raw status line, split on spaces and emptied of blank tokens, must yield
//! exactly 8 tokens in the fixed order `id pid vcpus max_mem cur_mem tty owner
//! name`; the id and vcpu-count tokens must read as decimal `u64` values, and
//! the other tokens are copied verbatim. Any other shape is a parse failure
//! for that line alone.

use crate::errors::{VmctlControllerError, VmctlControllerErrorCause};
use crate::text::{dec_val, fields_of, is_u64_numeral, parse_u64, split_nonempty, views_of};
use vstd::prelude::*;

verus! {

/// One row of the VM manager's status listing.
#[derive(Debug)]
pub struct Status {
    /// Manager-assigned numeric identifier, unique within one snapshot.
    pub id: u64,
    /// Process identifier, or a placeholder symbol meaning "none".
    pub pid: String,
    /// Number of virtual CPUs.
    pub vcpus: u64,
    /// Maximum memory, human-readable, not parsed further.
    pub max_mem: String,
    /// Current memory, human-readable; may be a placeholder.
    pub cur_mem: String,
    /// Attached terminal, or a placeholder.
    pub tty: String,
    /// Owning account name, or a placeholder.
    pub owner: String,
    /// User-assigned VM name; uniqueness is not guaranteed by the manager.
    pub name: String,
}

/// The non-empty space-separated tokens of one status line.
pub open spec fn line_tokens(s: Seq<char>) -> Seq<Seq<char>> {
    fields_of(s, ' ')
}

/// The non-empty lines of a raw listing.
pub open spec fn lines_of(s: Seq<char>) -> Seq<Seq<char>> {
    fields_of(s, '\n')
}

/// A line parses when it has exactly 8 non-empty tokens and tokens 0 and 2
/// read as decimal `u64` values.
pub open spec fn line_well_formed(s: Seq<char>) -> bool {
    &&& line_tokens(s).len() == 8
    &&& is_u64_numeral(line_tokens(s)[0])
    &&& is_u64_numeral(line_tokens(s)[2])
}

/// The record `r` holds exactly the fields of the line `s`, token for token.
pub open spec fn record_matches(r: Status, s: Seq<char>) -> bool {
    let ts = line_tokens(s);
    &&& r.id as int == dec_val(ts[0])
    &&& r.pid@ == ts[1]
    &&& r.vcpus as int == dec_val(ts[2])
    &&& r.max_mem@ == ts[3]
    &&& r.cur_mem@ == ts[4]
    &&& r.tty@ == ts[5]
    &&& r.owner@ == ts[6]
    &&& r.name@ == ts[7]
}

/// What parsing one line returns: a record of the line's tokens exactly when
/// the line is well-formed, and a parse failure otherwise.
pub open spec fn parse_result_matches(
    r: Result<Status, VmctlControllerError>,
    s: Seq<char>,
) -> bool {
    &&& (r is Ok <==> line_well_formed(s))
    &&& (r is Ok ==> record_matches(r->Ok_0, s))
    &&& (r is Err ==> r->Err_0.cause == VmctlControllerErrorCause::Parsing)
}

/// Every line of a listing body is well-formed.
pub open spec fn listing_well_formed(body: Seq<char>) -> bool {
    forall|i: int| 0 <= i < lines_of(body).len() ==> line_well_formed(#[trigger] lines_of(body)[i])
}

/// The character count of the listing's header row: everything before the
/// first line break, or the whole text when it has no line break.
pub open spec fn header_len(s: Seq<char>) -> int
    decreases s.len(),
{
    if s.len() == 0 {
        0
    } else if s[0] == '\n' {
        0
    } else {
        1 + header_len(s.skip(1))
    }
}

/// The data rows of a raw listing: everything after the header row and its
/// line break, or nothing when the text is a single line.
pub open spec fn body_of(s: Seq<char>) -> Seq<char> {
    if header_len(s) == s.len() {
        Seq::empty()
    } else {
        s.subrange(header_len(s) + 1, s.len() as int)
    }
}

proof fn lemma_header_len_bounds(s: Seq<char>)
    ensures
        0 <= header_len(s) <= s.len(),
    decreases s.len(),
{
    if s.len() > 0 && s[0] != '\n' {
        lemma_header_len_bounds(s.skip(1));
    }
}

/// The header runs past every break-free prefix.
proof fn lemma_header_len_skip(s: Seq<char>, i: int)
    requires
        0 <= i <= s.len(),
        forall|k: int| 0 <= k < i ==> s[k] != '\n',
    ensures
        header_len(s) == i + header_len(s.skip(i)),
    decreases i,
{
    if i == 0 {
        assert(s.skip(0) =~= s);
    } else {
        lemma_header_len_skip(s.skip(1), i - 1);
        assert(s.skip(1).skip(i - 1) =~= s.skip(i));
    }
}

/// Removes the header row of a raw listing in-process, returning its data
/// rows.
pub fn strip_header(s: &str) -> (r: String)
    ensures
        r@ == body_of(s@),
{
    let n: usize = s.unicode_len();
    let mut i: usize = 0;
    while i < n && s.get_char(i) != '\n'
        invariant
            n == s@.len(),
            0 <= i <= n,
            forall|k: int| 0 <= k < i ==> s@[k] != '\n',
        decreases n - i,
    {
        i = i + 1;
    }
    proof {
        lemma_header_len_skip(s@, i as int);
        lemma_header_len_bounds(s@.skip(i as int));
        if i < n {
            assert(s@.skip(i as int)[0] == s@[i as int]);
            assert(header_len(s@) == i);
        } else {
            assert(s@.skip(n as int) =~= Seq::<char>::empty());
            assert(header_len(s@) == n);
        }
    }
    if i < n {
        let r = s.substring_char(i + 1, n).to_owned();
        r
    } else {
        String::new()
    }
}

impl Status {
    /// Parses one status line: exactly 8 non-empty space-separated tokens,
    /// with the id and vcpu-count tokens read as decimal `u64` values and the
    /// rest copied verbatim.
    pub fn from_str(s: &str) -> (r: Result<Status, VmctlControllerError>)
        ensures
            parse_result_matches(r, s@),
            r is Ok <==> line_well_formed(s@),
    {
        let toks = split_nonempty(s, ' ');
        proof {
            assert(views_of(toks@) == line_tokens(s@));
        }
        if toks.len() != 8 {
            return Err(VmctlControllerError { cause: VmctlControllerErrorCause::Parsing });
        }
        let id = match parse_u64(toks[0].as_str()) {
            Some(v) => v,
            None => {
                return Err(VmctlControllerError { cause: VmctlControllerErrorCause::Parsing });
            },
        };
        let vcpus = match parse_u64(toks[2].as_str()) {
            Some(v) => v,
            None => {
                return Err(VmctlControllerError { cause: VmctlControllerErrorCause::Parsing });
            },
        };
        Ok(
            Status {
                id,
                pid: toks[1].clone(),
                vcpus,
                max_mem: toks[3].clone(),
                cur_mem: toks[4].clone(),
                tty: toks[5].clone(),
                owner: toks[6].clone(),
                name: toks[7].clone(),
            },
        )
    }

    /// Parses each given line independently: one result per line, in order.
    pub fn from_vec(vms: Vec<&str>) -> (r: Vec<Result<Status, VmctlControllerError>>)
        ensures
            r@.len() == vms@.len(),
            forall|i: int| 0 <= i < vms@.len() ==> parse_result_matches(#[trigger] r@[i], vms@[i]@),
    {
        let mut out: Vec<Result<Status, VmctlControllerError>> = Vec::new();
        let mut k: usize = 0;
        while k < vms.len()
            invariant
                0 <= k <= vms@.len(),
                out@.len() == k,
                forall|i: int| 0 <= i < k ==> parse_result_matches(#[trigger] out@[i], vms@[i]@),
            decreases vms@.len() - k,
        {
            out.push(Status::from_str(vms[k]));
            k = k + 1;
        }
        out
    }

    /// Splits a captured listing on line breaks, drops blank lines, and
    /// parses each remaining line independently, in input order.
    pub fn from_shell(input: &str) -> (r: Vec<Result<Status, VmctlControllerError>>)
        ensures
            r@.len() == lines_of(input@).len(),
            forall|i: int| 0 <= i < r@.len() ==> parse_result_matches(
                #[trigger] r@[i],
                lines_of(input@)[i],
            ),
    {
        let lines = split_nonempty(input, '\n');
        proof {
            assert(views_of(lines@) == lines_of(input@));
        }
        let mut out: Vec<Result<Status, VmctlControllerError>> = Vec::new();
        let mut k: usize = 0;
        while k < lines.len()
            invariant
                0 <= k <= lines@.len(),
                views_of(lines@) == lines_of(input@),
                out@.len() == k,
                forall|i: int| 0 <= i < k ==> parse_result_matches(
                    #[trigger] out@[i],
                    lines_of(input@)[i],
                ),
            decreases lines@.len() - k,
        {
            out.push(Status::from_str(lines[k].as_str()));
            k = k + 1;
        }
        out
    }

    /// Turns the full captured output of the status command into records:
    /// strips the header row, parses every remaining non-empty line, and
    /// fails with a parse error as soon as any line is malformed.
    pub fn from_manager_output(raw: &str) -> (r: Result<Vec<Status>, VmctlControllerError>)
        ensures
            r is Ok <==> listing_well_formed(body_of(raw@)),
            r is Ok ==> r->Ok_0@.len() == lines_of(body_of(raw@)).len(),
            r is Ok ==> forall|i: int| 0 <= i < lines_of(body_of(raw@)).len() ==> record_matches(
                #[trigger] r->Ok_0@[i],
                lines_of(body_of(raw@))[i],
            ),
            r is Err ==> r->Err_0.cause == VmctlControllerErrorCause::Parsing,
    {
        let body = strip_header(raw);
        let lines = split_nonempty(body.as_str(), '\n');
        proof {
            assert(views_of(lines@) == lines_of(body_of(raw@)));
        }
        let mut out: Vec<Status> = Vec::new();
        let mut k: usize = 0;
        while k < lines.len()
            invariant
                0 <= k <= lines@.len(),
                views_of(lines@) == lines_of(body_of(raw@)),
                out@.len() == k,
                forall|i: int| 0 <= i < k ==> line_well_formed(
                    #[trigger] lines_of(body_of(raw@))[i],
                ),
                forall|i: int| 0 <= i < k ==> record_matches(
                    #[trigger] out@[i],
                    lines_of(body_of(raw@))[i],
                ),
            decreases lines@.len() - k,
        {
            match Status::from_str(lines[k].as_str()) {
                Ok(st) => out.push(st),
                Err(e) => {
                    proof {
                        assert(views_of(lines@)[k as int] == lines@[k as int]@);
                        assert(!line_well_formed(lines_of(body_of(raw@))[k as int]));
                    }
                    return Err(e);
                },
            }
            k = k + 1;
        }
        Ok(out)
    }
}

} // verus!
