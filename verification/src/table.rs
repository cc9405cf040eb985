//! The summary table: one row for each lint, in the order of the ranking.

use vstd::prelude::*;
use crate::findings::EntryView;
use crate::findings::Findings;
use crate::findings::LintFindings;
use crate::findings::entries_view;
use crate::lints::LintGroup;
use crate::lints::LintLevel;
use crate::lints::LintView;
use crate::lints::Registry;
use crate::lints::former_group_of;
use crate::lints::former_lint_group;
use crate::lints::group_and_level;
use crate::lints::group_name;
use crate::rank::global_count;
use crate::rank::is_ranking;
use crate::rank::local_count;
use crate::text::decimal;
use crate::text::push_decimal;

verus! {

/// The most spans of a lint that are displayed for one source file.
pub const MAX_PER_FILE: usize = 5;

/// The most spans of a lint that are displayed for one package.
pub const MAX_PER_CRATE: usize = 10;

/// `base`, and behind it the start of a field that is struck out, where
/// `allowed` holds.
pub open spec fn strike_onto(base: Seq<char>, allowed: bool) -> Seq<char> {
    if allowed {
        base + "~*"@
    } else {
        base
    }
}

/// `base`, and behind it the end of a field that is struck out, where
/// `allowed` holds.
pub open spec fn unstrike_onto(base: Seq<char>, allowed: bool) -> Seq<char> {
    if allowed {
        base + "*~"@
    } else {
        base
    }
}

/// `base`, and behind it a count: `0`, or the count as a link to the lint's
/// report, at the anchor `kind`.
pub open spec fn count_onto(base: Seq<char>, count: usize, id: Seq<char>, kind: Seq<char>) -> Seq<
    char,
> {
    if count == 0 {
        base + decimal(0)
    } else {
        base + "["@ + decimal(count as nat) + "]("@ + "https://dtolnay.github.io/noisy-clippy"@
            + "/"@ + id + ".html#"@ + kind + ")"@
    }
}

/// `base`, and behind it the name of a lint as a link to its description,
/// struck out where the lint is allowed by default and in bold type where it
/// is not.
pub open spec fn name_onto(base: Seq<char>, id: Seq<char>, allowed: bool) -> Seq<char> {
    (if allowed {
        base + "~*"@
    } else {
        base + "**"@
    }) + "["@ + id + "]("@ + "https://rust-lang.github.io/rust-clippy/master/index.html"@ + "#"@
        + id + ")"@ + (if allowed {
        "*~"@
    } else {
        "**"@
    })
}

/// The group that a lint was in before, where that is another group than
/// the one it is in.
pub open spec fn former_group(id: Seq<char>, group: LintGroup) -> Option<LintGroup> {
    if former_group_of(id) == Some(group) {
        None
    } else {
        former_group_of(id)
    }
}

/// `base`, and behind it the groups of a lint: the former one, struck out,
/// where there is one, and the current one.
pub open spec fn groups_onto(base: Seq<char>, id: Seq<char>, group: LintGroup) -> Seq<char> {
    (match former_group(id, group) {
        Some(former) => base + "~*"@ + group_name(former) + "*~ "@,
        None => base,
    }) + group_name(group)
}

/// `base`, and behind it the row of one lint: the number of local spans, the
/// number of global spans, the lint's name and its groups.
pub open spec fn row_onto(
    base: Seq<char>,
    id: Seq<char>,
    local: usize,
    global: usize,
    group: LintGroup,
    level: LintLevel,
) -> Seq<char> {
    let allowed = level == LintLevel::Allow;
    groups_onto(
        name_onto(
            unstrike_onto(
                count_onto(
                    strike_onto(
                        unstrike_onto(count_onto(strike_onto(base, allowed), local, id, "local"@), allowed)
                            + " | "@,
                        allowed,
                    ),
                    global,
                    id,
                    "global"@,
                ),
                allowed,
            ) + " | "@,
            id,
            allowed,
        ) + " | "@,
        id,
        group,
    ) + "\n"@
}

/// `base`, and behind it the two lines that head the table.
pub open spec fn header_onto(base: Seq<char>) -> Seq<char> {
    base + "local | global | lint name | category\n"@ + "--- | --- | --- | ---\n"@
}

/// `base`, and behind it the rows of the lints whose places are listed in
/// `order` from place `k` on.
pub open spec fn rows_onto(
    base: Seq<char>,
    fs: Seq<EntryView>,
    registry: Seq<LintView>,
    order: Seq<usize>,
    k: int,
) -> Seq<char>
    decreases order.len() - k,
{
    if k < 0 || k >= order.len() {
        base
    } else {
        let e = fs[order[k] as int];
        rows_onto(
            row_onto(
                base,
                e.id,
                local_count(e),
                global_count(e),
                group_and_level(registry, e.id).0,
                group_and_level(registry, e.id).1,
            ),
            fs,
            registry,
            order,
            k + 1,
        )
    }
}

/// The table of the lints in the order `order`.
pub open spec fn table(fs: Seq<EntryView>, registry: Seq<LintView>, order: Seq<usize>) -> Seq<char> {
    rows_onto(header_onto(Seq::empty()), fs, registry, order, 0)
}

fn push_count(out: &mut String, count: usize, id: &str, kind: &str)
    ensures
        final(out)@ == count_onto(old(out)@, count, id@, kind@),
{
    if count == 0 {
        push_decimal(out, 0);
    } else {
        out.append("[");
        push_decimal(out, count as u64);
        out.append("](");
        out.append("https://dtolnay.github.io/noisy-clippy");
        out.append("/");
        out.append(id);
        out.append(".html#");
        out.append(kind);
        out.append(")");
    }
}

/// Appends the row of one lint to `out`.
pub fn push_row(
    out: &mut String,
    id: &str,
    local: usize,
    global: usize,
    group: LintGroup,
    level: LintLevel,
)
    ensures
        final(out)@ == row_onto(old(out)@, id@, local, global, group, level),
{
    let allowed = level == LintLevel::Allow;
    if allowed {
        out.append("~*");
    }
    push_count(out, local, id, "local");
    if allowed {
        out.append("*~");
    }
    out.append(" | ");
    if allowed {
        out.append("~*");
    }
    push_count(out, global, id, "global");
    if allowed {
        out.append("*~");
    }
    out.append(" | ");
    if allowed {
        out.append("~*");
    } else {
        out.append("**");
    }
    out.append("[");
    out.append(id);
    out.append("](");
    out.append("https://rust-lang.github.io/rust-clippy/master/index.html");
    out.append("#");
    out.append(id);
    out.append(")");
    if allowed {
        out.append("*~");
    } else {
        out.append("**");
    }
    out.append(" | ");
    let former = match former_lint_group(id) {
        Some(f) => if f == group {
            None
        } else {
            Some(f)
        },
        None => None,
    };
    match former {
        Some(f) => {
            out.append("~*");
            out.append(f.name());
            out.append("*~ ");
        },
        None => {},
    }
    out.append(group.name());
    out.append("\n");
}

/// Renders the table of the lints whose places within `lints` are listed in
/// `order`, one row for each, under the two lines that head the table.
pub fn render_table(lints: &Vec<LintFindings>, registry: &Registry, order: &Vec<usize>) -> (out: String)
    requires
        forall|k: int| 0 <= k < order@.len() ==> (#[trigger] order@[k]) < lints@.len(),
    ensures
        out@ == table(entries_view(lints@), registry@, order@),
{
    let ghost fs = entries_view(lints@);
    let mut out = String::new();
    out.append("local | global | lint name | category\n");
    out.append("--- | --- | --- | ---\n");
    let ghost start = out@;
    let mut k: usize = 0;
    while k < order.len()
        invariant
            k <= order.len(),
            fs == entries_view(lints@),
            forall|j: int| 0 <= j < order@.len() ==> (#[trigger] order@[j]) < lints@.len(),
            rows_onto(out@, fs, registry@, order@, k as int) == rows_onto(
                start,
                fs,
                registry@,
                order@,
                0,
            ),
        decreases order.len() - k,
    {
        let lint = &lints[order[k]];
        assert(fs[order@[k as int] as int] == lint@);
        let (group, level) = registry.classify(lint.lint_id.as_str());
        push_row(
            &mut out,
            lint.lint_id.as_str(),
            lint.local_count(),
            lint.global_count(),
            group,
            level,
        );
        k += 1;
    }
    out
}

} // verus!
