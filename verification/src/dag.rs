//! The project status rendered as text: overall counts and progress, the
//! milestone table, what is in flight or blocked, and what comes next,
//! grouped by the milestone it unblocks.

use vstd::prelude::*;
use vstd::string::StringExecFns;

use crate::features::FeatureList;
use crate::features::FeatureStatus;
use crate::features::FeatureType;
use crate::features::prio_sorted as forge_prio_sorted;
use crate::features::count_with_status;
use crate::features::StatusCounts;
use crate::text::find_sub;
use crate::text::find_sub_ci;
use crate::text::percent_rounded;
use crate::text::truncate_chars;
use crate::text::dec_str;
use crate::text::u32_to_string;
use crate::text::usize_to_string;

verus! {

/// Append `s` and pad with spaces up to `width` characters.
fn append_padded_right(out: &mut String, s: &str, width: usize)
    ensures
        final(out)@.len() >= old(out)@.len() + s@.len(),
{
    out.append(s);
    let mut k = s.unicode_len();
    while k < width
        invariant
            out@.len() >= old(out)@.len() + s@.len(),
        decreases width - k,
    {
        out.append(" ");
        k += 1;
    }
}

/// Pad with spaces up to `width` characters, then append `s`.
fn append_padded_left(out: &mut String, s: &str, width: usize)
    ensures
        final(out)@.len() >= old(out)@.len() + s@.len(),
{
    let mut k = s.unicode_len();
    while k < width
        invariant
            out@.len() >= old(out)@.len(),
        decreases width - k,
    {
        out.append(" ");
        k += 1;
    }
    out.append(s);
}

/// Trim ASCII blanks from both ends of the character range `[b, e)`.
fn trim_bounds(s: &str, b: usize, e: usize) -> (r: (usize, usize))
    requires
        b <= e,
        e <= s@.len(),
    ensures
        b <= r.0,
        r.0 <= r.1,
        r.1 <= e,
{
    let n = e;
    let mut lo = b;
    while lo < n && (s.get_char(lo) == ' ' || s.get_char(lo) == '\t' || s.get_char(lo) == '\n'
        || s.get_char(lo) == '\r')
        invariant
            b <= lo <= n,
            n == e,
            e <= s@.len(),
        decreases n - lo,
    {
        lo += 1;
    }
    let mut hi = n;
    while hi > lo && (s.get_char(hi - 1) == ' ' || s.get_char(hi - 1) == '\t' || s.get_char(hi - 1)
        == '\n' || s.get_char(hi - 1) == '\r')
        invariant
            lo <= hi <= n,
            n == e,
            e <= s@.len(),
        decreases hi,
    {
        hi -= 1;
    }
    (lo, hi)
}

/// The character range `[b, e)` spells `milestone`, ASCII
/// case-insensitively.
fn range_is_milestone_word(s: &str, b: usize, e: usize) -> (r: bool)
    requires
        b <= e,
        e <= s@.len(),
{
    if e - b != 9 {
        return false;
    }
    let word = "milestone";
    proof {
        reveal_strlit("milestone");
    }
    let mut k: usize = 0;
    while k < 9
        invariant
            0 <= k <= 9,
            e - b == 9,
            b + 9 == e <= s@.len(),
            word@.len() == 9,
        decreases 9 - k,
    {
        let u = s.get_char(b + k) as u32;
        let lu = if 65 <= u && u <= 90 {
            u + 32
        } else {
            u
        };
        if !(lu == word.get_char(k) as u32) {
            return false;
        }
        k += 1;
    }
    true
}

/// A short description for a milestone line. First choice: the words of
/// the description between the milestone tag and the word `review` (when
/// they are not just `milestone`); second choice: what follows `review`
/// up to the next sentence mark, at most thirty characters.
fn milestone_desc(desc: &str, label: &str) -> (r: String) {
    let n = desc.unicode_len();
    let llen = label.unicode_len();
    if llen > 0 {
        match find_sub(desc, label, 0) {
            Some(start) => {
                let after = start + llen;
                let te = trim_bounds(desc, after, n);
                match find_sub_ci(desc, "review", te.0) {
                    Some(p) => {
                        proof {
                            reveal_strlit("review");
                        }
                        if p + 6 <= te.1 {
                            let nb = trim_bounds(desc, te.0, p);
                            if nb.1 > nb.0 && !range_is_milestone_word(desc, nb.0, nb.1) {
                                return desc.substring_char(nb.0, nb.1).to_owned();
                            }
                        }
                    }
                    None => {}
                }
            }
            None => {}
        }
    }
    match find_sub_ci(desc, "review", 0) {
        Some(p) => {
            proof {
                reveal_strlit("review");
            }
            let mut b = p + 6;
            while b < n && (desc.get_char(b) == '.' || desc.get_char(b) == ',' || desc.get_char(b)
                == ' ' || desc.get_char(b) == '\t')
                invariant
                    p + 6 <= b <= n,
                    n == desc@.len(),
                decreases n - b,
            {
                b += 1;
            }
            if b < n {
                let mut e = b;
                while e < n && e - b < 30 && !(desc.get_char(e) == ':' || desc.get_char(e) == '.')
                    invariant
                        b <= e <= n,
                        n == desc@.len(),
                    decreases n - e,
                {
                    e += 1;
                }
                let tb = trim_bounds(desc, b, e);
                if tb.1 > tb.0 {
                    return desc.substring_char(tb.0, tb.1).to_owned();
                }
            }
        }
        None => {}
    }
    String::new()
}

/// The percentage shown in the status line.
pub open spec fn spec_percent(done: int, total: int) -> int {
    if total == 0 {
        0
    } else {
        (done * 100 + total / 2) / total
    }
}

/// The one-line status summary shown under the pane grid: exactly the
/// counts, the rounded percentage, and the per-status tallies.
pub fn status_line(counts: &StatusCounts) -> (r: String)
    requires
        counts.done <= counts.total,
    ensures
        r@ == " Features: "@ + dec_str(counts.done as int) + "/"@ + dec_str(counts.total as int)
            + " done ("@ + dec_str(spec_percent(counts.done as int, counts.total as int)) + "%) | "@
            + dec_str(counts.pending as int) + " pending | "@ + dec_str(counts.claimed as int)
            + " claimed | "@ + dec_str(counts.blocked as int) + " blocked "@,
{
    proof {
        reveal_strlit(" Features: ");
    }
    let mut s = String::from_str(" Features: ");
    let done = usize_to_string(counts.done);
    s.append(done.as_str());
    s.append("/");
    let total = usize_to_string(counts.total);
    s.append(total.as_str());
    s.append(" done (");
    let pct = u32_to_string(percent_rounded(counts.done, counts.total));
    s.append(pct.as_str());
    s.append("%) | ");
    let pending = usize_to_string(counts.pending);
    s.append(pending.as_str());
    s.append(" pending | ");
    let claimed = usize_to_string(counts.claimed);
    s.append(claimed.as_str());
    s.append(" claimed | ");
    let blocked = usize_to_string(counts.blocked);
    s.append(blocked.as_str());
    s.append(" blocked ");
    proof {
        assert(s@ =~= " Features: "@ + dec_str(counts.done as int) + "/"@ + dec_str(
            counts.total as int,
        ) + " done ("@ + dec_str(spec_percent(counts.done as int, counts.total as int)) + "%) | "@
            + dec_str(counts.pending as int) + " pending | "@ + dec_str(counts.claimed as int)
            + " claimed | "@ + dec_str(counts.blocked as int) + " blocked "@);
    }
    s
}

/// The counts summary, as a value of the status-count record.
pub open spec fn spec_status_counts(fs: Seq<crate::features::Feature>) -> StatusCounts {
    StatusCounts {
        total: fs.len() as usize,
        pending: count_with_status(fs, fs.len() as int, FeatureStatus::Pending) as usize,
        claimed: count_with_status(fs, fs.len() as int, FeatureStatus::Claimed) as usize,
        done: count_with_status(fs, fs.len() as int, FeatureStatus::Done) as usize,
        blocked: count_with_status(fs, fs.len() as int, FeatureStatus::Blocked) as usize,
    }
}

/// The opening lines of the status text: the exact counts, with the
/// blocked tally only when any feature is blocked, and the progress
/// percentage only when features exist.
pub open spec fn spec_dag_header(c: StatusCounts) -> Seq<char> {
    let base = "Features: "@ + dec_str(c.total as int) + " total ("@ + dec_str(c.done as int)
        + " done, "@ + dec_str(c.claimed as int) + " claimed, "@ + dec_str(c.pending as int)
        + " pending"@;
    let with_blocked = if c.blocked > 0 {
        base + ", "@ + dec_str(c.blocked as int) + " blocked"@
    } else {
        base
    };
    let closed = with_blocked + ")\n"@;
    if c.total > 0 {
        closed + "Progress: "@ + dec_str(spec_percent(c.done as int, c.total as int)) + "%\n"@
    } else {
        closed
    }
}

/// Render the whole project status: the exact header lines, then the
/// milestone table, the claimed and blocked features, and the claimable
/// features grouped by the milestone they unblock.
pub fn render_feature_dag(features: &FeatureList) -> (r: String)
    ensures
        r@.len() >= spec_dag_header(spec_status_counts(features.features@)).len(),
        r@.subrange(0, spec_dag_header(spec_status_counts(features.features@)).len() as int)
            == spec_dag_header(spec_status_counts(features.features@)),
{
    let counts = features.status_counts();
    proof {
        assert(counts == spec_status_counts(features.features@));
    }
    let mut hdr = String::from_str("Features: ");
    let total_s = usize_to_string(counts.total);
    hdr.append(total_s.as_str());
    hdr.append(" total (");
    let done_s = usize_to_string(counts.done);
    hdr.append(done_s.as_str());
    hdr.append(" done, ");
    let claimed_s = usize_to_string(counts.claimed);
    hdr.append(claimed_s.as_str());
    hdr.append(" claimed, ");
    let pending_s = usize_to_string(counts.pending);
    hdr.append(pending_s.as_str());
    hdr.append(" pending");
    if counts.blocked > 0 {
        hdr.append(", ");
        let blocked_s = usize_to_string(counts.blocked);
        hdr.append(blocked_s.as_str());
        hdr.append(" blocked");
    }
    hdr.append(")\n");
    if counts.total > 0 {
        hdr.append("Progress: ");
        let pct = u32_to_string(percent_rounded(counts.done, counts.total));
        hdr.append(pct.as_str());
        hdr.append("%\n");
    }
    proof {
        assert(hdr@ =~= spec_dag_header(counts));
    }
    let mut out = String::new();
    let n = features.features.len();
    if n == 0 {
        return with_header(hdr, out);
    }

    // milestone table: review features whose description opens with a tag
    let mut tagged: Vec<(usize, u32)> = Vec::new();
    let mut i: usize = 0;
    while i < n
        invariant
            0 <= i <= n,
            n == features.features@.len(),
            forall|t: int| 0 <= t < tagged@.len() ==> ((#[trigger] tagged@[t]).0 as int) < n as int,
        decreases n - i,
    {
        if features.features[i].feature_type == FeatureType::Review {
            let label = FeatureList::milestone_label(&features.features[i]);
            if !label.as_str().is_empty() {
                let key = FeatureList::milestone_sort_key(label.as_str());
                let mut pos: usize = 0;
                while pos < tagged.len() && tagged[pos].1 <= key
                    invariant
                        0 <= pos <= tagged@.len(),
                        forall|t: int|
                            0 <= t < tagged@.len() ==> ((#[trigger] tagged@[t]).0 as int)
                                < n as int,
                    decreases tagged@.len() - pos,
                {
                    pos += 1;
                }
                let ghost pre = tagged@;
                tagged.insert(pos, (i, key));
                proof {
                    assert forall|t: int|
                        0 <= t < tagged@.len() implies ((#[trigger] tagged@[t]).0 as int)
                        < n as int by {
                        if t < pos as int {
                            assert(tagged@[t] == pre[t]);
                        } else if t > pos as int {
                            assert(tagged@[t] == pre[t - 1]);
                        }
                    }
                }
            }
        }
        i += 1;
    }
    if tagged.len() > 0 {
        out.append("\nMilestones:\n");
        let mut t: usize = 0;
        while t < tagged.len()
            invariant
                n == features.features@.len(),
                forall|u: int|
                    0 <= u < tagged@.len() ==> ((#[trigger] tagged@[u]).0 as int) < n as int,
            decreases tagged@.len() - t,
        {
            proof {
                assert(((tagged@[t as int]).0 as int) < n as int);
            }
            let mi = tagged[t].0;
            let label = FeatureList::milestone_label(&features.features[mi]);
            let ndeps = features.features[mi].depends_on.len();
            let mut done_count: usize = 0;
            let mut wip_count: usize = 0;
            let mut d: usize = 0;
            while d < ndeps
                invariant
                    0 <= d <= ndeps,
                    (mi as int) < n as int,
                    n == features.features@.len(),
                    ndeps == features.features@[mi as int].depends_on@.len(),
                    done_count <= d,
                    wip_count <= d,
                decreases ndeps - d,
            {
                match features.find_index(features.features[mi].depends_on[d].as_str()) {
                    Some(di) => {
                        if features.features[di].status == FeatureStatus::Done {
                            done_count += 1;
                        } else if features.features[di].status == FeatureStatus::Claimed {
                            wip_count += 1;
                        }
                    }
                    None => {}
                }
                d += 1;
            }
            let indicator: &str = if features.features[mi].status == FeatureStatus::Done {
                "\u{2713}"
            } else if done_count > 0 || wip_count > 0 {
                "\u{25D0}"
            } else {
                "\u{00B7}"
            };
            out.append("  ");
            out.append(indicator);
            out.append(" ");
            append_padded_right(&mut out, label.as_str(), 6);
            let mut ratio = usize_to_string(done_count);
            ratio.append("/");
            let ndeps_s = usize_to_string(ndeps);
            ratio.append(ndeps_s.as_str());
            append_padded_left(&mut out, ratio.as_str(), 5);
            let short = milestone_desc(features.features[mi].description.as_str(), label.as_str());
            if !short.as_str().is_empty() {
                out.append("  ");
                out.append(short.as_str());
            }
            if wip_count > 0 {
                out.append("  (");
                let wip_s = usize_to_string(wip_count);
                out.append(wip_s.as_str());
                out.append(" wip)");
            }
            out.append("\n");
            t += 1;
        }
    }

    // claimed features, by priority
    let mut claimed_idx: Vec<usize> = Vec::new();
    let mut i2: usize = 0;
    while i2 < n
        invariant
            0 <= i2 <= n,
            n == features.features@.len(),
            forall|y: usize| claimed_idx@.contains(y) ==> y < i2,
            forge_prio_sorted(features.features@, claimed_idx@),
        decreases n - i2,
    {
        if features.features[i2].status == FeatureStatus::Claimed {
            features.insert_sorted(&mut claimed_idx, i2);
        }
        i2 += 1;
    }
    if claimed_idx.len() > 0 {
        out.append("\nIn progress:\n");
        let mut k: usize = 0;
        while k < claimed_idx.len()
            invariant
                n == features.features@.len(),
                forall|y: usize| claimed_idx@.contains(y) ==> y < n,
            decreases claimed_idx@.len() - k,
        {
            proof {
                assert(claimed_idx@.contains(claimed_idx@[k as int]));
            }
            let fi = claimed_idx[k];
            out.append("  \u{29D7} ");
            out.append(features.features[fi].id.as_str());
            out.append("  ");
            let short = truncate_chars(features.features[fi].description.as_str(), 45);
            out.append(short.as_str());
            out.append("  (");
            match &features.features[fi].claimed_by {
                Some(agent) => {
                    out.append(agent.as_str());
                }
                None => {
                    out.append("?");
                }
            }
            out.append(")\n");
            k += 1;
        }
    }

    // blocked features, by priority
    let mut blocked_idx: Vec<usize> = Vec::new();
    let mut i3: usize = 0;
    while i3 < n
        invariant
            0 <= i3 <= n,
            n == features.features@.len(),
            forall|y: usize| blocked_idx@.contains(y) ==> y < i3,
            forge_prio_sorted(features.features@, blocked_idx@),
        decreases n - i3,
    {
        if features.features[i3].status == FeatureStatus::Blocked {
            features.insert_sorted(&mut blocked_idx, i3);
        }
        i3 += 1;
    }
    if blocked_idx.len() > 0 {
        out.append("\nBlocked:\n");
        let mut k: usize = 0;
        while k < blocked_idx.len()
            invariant
                n == features.features@.len(),
                forall|y: usize| blocked_idx@.contains(y) ==> y < n,
            decreases blocked_idx@.len() - k,
        {
            proof {
                assert(blocked_idx@.contains(blocked_idx@[k as int]));
            }
            let fi = blocked_idx[k];
            out.append("  \u{2717} ");
            out.append(features.features[fi].id.as_str());
            out.append("  ");
            let short = truncate_chars(features.features[fi].description.as_str(), 45);
            out.append(short.as_str());
            out.append("\n");
            match &features.features[fi].blocked_reason {
                Some(reason) => {
                    if !reason.as_str().is_empty() {
                        out.append("    reason: ");
                        out.append(reason.as_str());
                        out.append("\n");
                    }
                }
                None => {}
            }
            k += 1;
        }
    }

    // what comes next, grouped by the milestone it unblocks
    let groups = features.milestone_claimable();
    if groups.len() > 0 {
        out.append("\n");
        let mut g: usize = 0;
        while g < groups.len()
            invariant
            decreases groups@.len() - g,
        {
            let ms_id: &str = groups[g].0;
            if ms_id.unicode_len() == 0 {
                out.append("Next up: ");
            } else {
                out.append("Next up (");
                let mut shown = false;
                match features.find_index(ms_id) {
                    Some(mi) => {
                        let label = FeatureList::milestone_label(&features.features[mi]);
                        if !label.as_str().is_empty() {
                            out.append(label.as_str());
                            shown = true;
                        }
                    }
                    None => {}
                }
                if !shown {
                    out.append(ms_id);
                }
                out.append("): ");
            }
            let ids = &groups[g].1;
            let mut k: usize = 0;
            while k < ids.len() && k < 3
                invariant
                    decreases ids@.len() - k,
            {
                if k > 0 {
                    out.append(", ");
                }
                out.append(ids[k]);
                k += 1;
            }
            out.append("\n");
            g += 1;
        }
    }
    with_header(hdr, out)
}

/// Prefix the header lines onto a rendered body.
fn with_header(hdr: String, body: String) -> (r: String)
    ensures
        r@ == hdr@ + body@,
        r@.len() >= hdr@.len(),
        r@.subrange(0, hdr@.len() as int) == hdr@,
{
    let mut s = hdr;
    let ghost head = s@;
    s.append(body.as_str());
    proof {
        assert(s@.subrange(0, head.len() as int) =~= head);
    }
    s
}

} // verus!
