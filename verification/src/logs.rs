//! Container log formatting: each line that carries a leading timestamp is
//! rewritten as `[HH:MM:SS] message` in local time, lines without one are
//! kept, and an empty result is replaced by a placeholder.

use vstd::prelude::*;
use vstd::string::StrSliceExecFns;
use vstd::string::StringExecFns;

use crate::strutil::spec_join;
use crate::strutil::spec_split;
use crate::strutil::spec_trim;
use crate::strutil::split_char;
use crate::strutil::join_strings;
use crate::strutil::trim;
use crate::trusted::local_hms_of_timestamp;

verus! {

/// One log line reshaped: a line longer than thirty characters starts with
/// a nanosecond timestamp, which becomes the bracketed local time when the
/// clock library accepted it (the `hms` argument) and is dropped otherwise;
/// a short line passes through.
pub open spec fn spec_log_line(line: Seq<char>, hms: Option<Seq<char>>) -> Seq<char> {
    if line.len() > 30 {
        let msg = if line.len() > 31 {
            line.skip(31)
        } else {
            Seq::<char>::empty()
        };
        match hms {
            Some(h) => seq!['['] + h + "] "@ + msg,
            None => msg,
        }
    } else {
        line
    }
}

/// The whole formatted log: the reshaped lines joined back together, or the
/// placeholder when nothing but blanks is left.
pub open spec fn spec_logs_result(lines: Seq<Seq<char>>, hms: Seq<Option<Seq<char>>>) -> Seq<
    char,
> {
    let joined = spec_join(
        Seq::new(lines.len(), |i: int| spec_log_line(lines[i], hms[i])),
        "\n"@,
    );
    if spec_trim(joined).len() == 0 {
        "Nenhum log disponivel"@
    } else {
        joined
    }
}

fn format_log_line(line: &str, hms: Option<String>) -> (r: String)
    ensures
        r@ == spec_log_line(
            line@,
            match hms {
                Some(h) => Some(h@),
                None => None,
            },
        ),
{
    let len = line.unicode_len();
    if len > 30 {
        let msg = if len > 31 {
            line.substring_char(31, len)
        } else {
            ""
        };
        proof {
            reveal_strlit("");
            if len > 31 {
                assert(msg@ =~= line@.skip(31));
            } else {
                assert(msg@ =~= Seq::<char>::empty());
            }
        }
        match hms {
            Some(h) => {
                let mut out = "[".to_owned();
                out.append(h.as_str());
                out.append("] ");
                out.append(msg);
                proof {
                    reveal_strlit("[");
                    assert("["@ =~= seq!['[']);
                }
                out
            },
            None => msg.to_owned(),
        }
    } else {
        line.to_owned()
    }
}

/// Formats a raw timestamped log dump for display: the local clock reshapes
/// each line's timestamp (some sequence of per-line outcomes exists, since
/// the time zone is the machine's), and a blank result becomes the
/// placeholder.
pub fn format_container_logs(logs: &str) -> (r: String)
    ensures
        exists|hms: Seq<Option<Seq<char>>>|
            {
                &&& hms.len() == spec_split(logs@, '\n').len()
                &&& (forall|i: int|
                    0 <= i < hms.len() ==> ((#[trigger] hms[i]) matches Some(h) ==> h.len() == 8))
                &&& r@ == #[trigger] spec_logs_result(spec_split(logs@, '\n'), hms)
            },
{
    let lines = split_char(logs, '\n');
    let ghost lv = spec_split(logs@, '\n');
    let mut parts: Vec<String> = Vec::new();
    let ghost mut choices: Seq<Option<Seq<char>>> = Seq::empty();
    let mut i: usize = 0;
    while i < lines.len()
        invariant
            crate::strutil::views(lines@) == lv,
            i <= lines@.len(),
            choices.len() == i,
            forall|k: int|
                0 <= k < i ==> ((#[trigger] choices[k]) matches Some(h) ==> h.len() == 8),
            parts@.len() == i,
            forall|k: int|
                0 <= k < i ==> (#[trigger] parts@[k]@) == spec_log_line(lv[k], choices[k]),
        decreases lines@.len() - i,
    {
        proof {
            assert(lines@[i as int]@ == lv[i as int]);
        }
        let line: &str = lines[i].as_str();
        let len = line.unicode_len();
        let hms: Option<String> = if len > 30 {
            let ts = line.substring_char(0, 30);
            local_hms_of_timestamp(ts)
        } else {
            None
        };
        let ghost choice: Option<Seq<char>> = match &hms {
            Some(h) => Some(h@),
            None => None,
        };
        let piece = format_log_line(line, hms);
        parts.push(piece);
        proof {
            choices = choices.push(choice);
        }
        i = i + 1;
    }
    let joined = join_strings(&parts, "\n");
    proof {
        assert(crate::strutil::views(parts@) =~= Seq::new(
            lv.len(),
            |k: int| spec_log_line(lv[k], choices[k]),
        ));
    }
    let t = trim(joined.as_str());
    if t.unicode_len() == 0 {
        let r = "Nenhum log disponivel".to_owned();
        proof {
            assert(r@ == spec_logs_result(lv, choices));
        }
        r
    } else {
        proof {
            assert(joined@ == spec_logs_result(lv, choices));
        }
        joined
    }
}

} // verus!
