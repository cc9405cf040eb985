//! The lint registry: groups, levels, lookup by current or former name, and
//! the groups that lints used to be in.

use vstd::prelude::*;
use crate::text::same_str;

verus! {

/// The group that a lint belongs to.
#[derive(Clone, Copy, Debug, PartialEq, Eq, Structural)]
pub enum LintGroup {
    Cargo,
    Complexity,
    Correctness,
    Deprecated,
    Nursery,
    Pedantic,
    Perf,
    Restriction,
    Style,
    Suspicious,
    Unknown,
}

/// The level that a lint has by default.
#[derive(Clone, Copy, Debug, PartialEq, Eq, Structural)]
pub enum LintLevel {
    Allow,
    Warn,
    Deny,
    /// No level at all.
    NoLevel,
}

/// The name of a group, in lower case.
pub open spec fn group_name(group: LintGroup) -> Seq<char> {
    match group {
        LintGroup::Cargo => "cargo"@,
        LintGroup::Complexity => "complexity"@,
        LintGroup::Correctness => "correctness"@,
        LintGroup::Deprecated => "deprecated"@,
        LintGroup::Nursery => "nursery"@,
        LintGroup::Pedantic => "pedantic"@,
        LintGroup::Perf => "perf"@,
        LintGroup::Restriction => "restriction"@,
        LintGroup::Style => "style"@,
        LintGroup::Suspicious => "suspicious"@,
        LintGroup::Unknown => "unknown"@,
    }
}

impl LintGroup {
    /// The group's name, in lower case.
    pub fn name(&self) -> (s: &'static str)
        ensures
            s@ == group_name(*self),
    {
        match self {
            LintGroup::Cargo => "cargo",
            LintGroup::Complexity => "complexity",
            LintGroup::Correctness => "correctness",
            LintGroup::Deprecated => "deprecated",
            LintGroup::Nursery => "nursery",
            LintGroup::Pedantic => "pedantic",
            LintGroup::Perf => "perf",
            LintGroup::Restriction => "restriction",
            LintGroup::Style => "style",
            LintGroup::Suspicious => "suspicious",
            LintGroup::Unknown => "unknown",
        }
    }
}

/// The group that the lint `id` was in before it was moved, for the lints
/// that were moved.
pub open spec fn former_group_of(id: Seq<char>) -> Option<LintGroup> {
    if id == "cognitive_complexity"@ {
        Some(LintGroup::Complexity)
    } else if id == "implicit_hasher"@ {
        Some(LintGroup::Style)
    } else if id == "inefficient_to_string"@ {
        Some(LintGroup::Perf)
    } else if id == "integer_division"@ {
        Some(LintGroup::Pedantic)
    } else if id == "large_digit_groups"@ {
        Some(LintGroup::Style)
    } else if id == "let_unit_value"@ {
        Some(LintGroup::Style)
    } else if id == "manual_map"@ {
        Some(LintGroup::Style)
    } else if id == "many_single_char_names"@ {
        Some(LintGroup::Style)
    } else if id == "match_bool"@ {
        Some(LintGroup::Style)
    } else if id == "needless_pass_by_value"@ {
        Some(LintGroup::Style)
    } else if id == "new_ret_no_self"@ {
        Some(LintGroup::Style)
    } else if id == "nonstandard_macro_braces"@ {
        Some(LintGroup::Style)
    } else if id == "option_if_let_else"@ {
        Some(LintGroup::Pedantic)
    } else if id == "option_option"@ {
        Some(LintGroup::Complexity)
    } else if id == "rc_buffer"@ {
        Some(LintGroup::Perf)
    } else if id == "string_lit_as_bytes"@ {
        Some(LintGroup::Style)
    } else if id == "transmute_undefined_repr"@ {
        Some(LintGroup::Correctness)
    } else if id == "trivial_regex"@ {
        Some(LintGroup::Style)
    } else if id == "trivially_copy_pass_by_ref"@ {
        Some(LintGroup::Perf)
    } else if id == "unnested_or_patterns"@ {
        Some(LintGroup::Complexity)
    } else if id == "unreadable_literal"@ {
        Some(LintGroup::Style)
    } else if id == "unsafe_vector_initialization"@ {
        Some(LintGroup::Correctness)
    } else if id == "useless_let_if_seq"@ {
        Some(LintGroup::Style)
    } else if id == "assertions_on_result_states"@ {
        Some(LintGroup::Style)
    } else if id == "await_holding_lock"@ {
        Some(LintGroup::Correctness)
    } else if id == "await_holding_refcell_ref"@ {
        Some(LintGroup::Correctness)
    } else if id == "borrow_interior_mutable_const"@ {
        Some(LintGroup::Correctness)
    } else if id == "branches_sharing_code"@ {
        Some(LintGroup::Complexity)
    } else if id == "cast_ptr_alignment"@ {
        Some(LintGroup::Correctness)
    } else if id == "declare_interior_mutable_const"@ {
        Some(LintGroup::Correctness)
    } else if id == "derive_partial_eq_without_eq"@ {
        Some(LintGroup::Style)
    } else if id == "eval_order_dependence"@ {
        Some(LintGroup::Suspicious)
    } else if id == "float_cmp"@ {
        Some(LintGroup::Correctness)
    } else if id == "format_push_string"@ {
        Some(LintGroup::Perf)
    } else if id == "index_refutable_slice"@ {
        Some(LintGroup::Nursery)
    } else if id == "iter_with_drain"@ {
        Some(LintGroup::Perf)
    } else if id == "manual_clamp"@ {
        Some(LintGroup::Complexity)
    } else if id == "match_wild_err_arm"@ {
        Some(LintGroup::Style)
    } else if id == "mixed_read_write_in_expression"@ {
        Some(LintGroup::Suspicious)
    } else if id == "mutex_atomic"@ {
        Some(LintGroup::Perf)
    } else if id == "needless_collect"@ {
        Some(LintGroup::Perf)
    } else if id == "non_ascii_literal"@ {
        Some(LintGroup::Pedantic)
    } else if id == "range_plus_one"@ {
        Some(LintGroup::Complexity)
    } else if id == "significant_drop_in_scrutinee"@ {
        Some(LintGroup::Suspicious)
    } else if id == "suspicious_operation_groupings"@ {
        Some(LintGroup::Style)
    } else if id == "try_err"@ {
        Some(LintGroup::Style)
    } else if id == "unnecessary_safety_doc"@ {
        Some(LintGroup::Style)
    } else if id == "unnecessary_wraps"@ {
        Some(LintGroup::Complexity)
    } else if id == "verbose_bit_mask"@ {
        Some(LintGroup::Style)
    } else {
        None
    }
}

/// The group that a lint used to be in, if it has been moved to another.
pub fn former_lint_group(lint_id: &str) -> (group: Option<LintGroup>)
    ensures
        group == former_group_of(lint_id@),
{
    if same_str(lint_id, "cognitive_complexity") {
        Some(LintGroup::Complexity)
    } else if same_str(lint_id, "implicit_hasher") {
        Some(LintGroup::Style)
    } else if same_str(lint_id, "inefficient_to_string") {
        Some(LintGroup::Perf)
    } else if same_str(lint_id, "integer_division") {
        Some(LintGroup::Pedantic)
    } else if same_str(lint_id, "large_digit_groups") {
        Some(LintGroup::Style)
    } else if same_str(lint_id, "let_unit_value") {
        Some(LintGroup::Style)
    } else if same_str(lint_id, "manual_map") {
        Some(LintGroup::Style)
    } else if same_str(lint_id, "many_single_char_names") {
        Some(LintGroup::Style)
    } else if same_str(lint_id, "match_bool") {
        Some(LintGroup::Style)
    } else if same_str(lint_id, "needless_pass_by_value") {
        Some(LintGroup::Style)
    } else if same_str(lint_id, "new_ret_no_self") {
        Some(LintGroup::Style)
    } else if same_str(lint_id, "nonstandard_macro_braces") {
        Some(LintGroup::Style)
    } else if same_str(lint_id, "option_if_let_else") {
        Some(LintGroup::Pedantic)
    } else if same_str(lint_id, "option_option") {
        Some(LintGroup::Complexity)
    } else if same_str(lint_id, "rc_buffer") {
        Some(LintGroup::Perf)
    } else if same_str(lint_id, "string_lit_as_bytes") {
        Some(LintGroup::Style)
    } else if same_str(lint_id, "transmute_undefined_repr") {
        Some(LintGroup::Correctness)
    } else if same_str(lint_id, "trivial_regex") {
        Some(LintGroup::Style)
    } else if same_str(lint_id, "trivially_copy_pass_by_ref") {
        Some(LintGroup::Perf)
    } else if same_str(lint_id, "unnested_or_patterns") {
        Some(LintGroup::Complexity)
    } else if same_str(lint_id, "unreadable_literal") {
        Some(LintGroup::Style)
    } else if same_str(lint_id, "unsafe_vector_initialization") {
        Some(LintGroup::Correctness)
    } else if same_str(lint_id, "useless_let_if_seq") {
        Some(LintGroup::Style)
    } else if same_str(lint_id, "assertions_on_result_states") {
        Some(LintGroup::Style)
    } else if same_str(lint_id, "await_holding_lock") {
        Some(LintGroup::Correctness)
    } else if same_str(lint_id, "await_holding_refcell_ref") {
        Some(LintGroup::Correctness)
    } else if same_str(lint_id, "borrow_interior_mutable_const") {
        Some(LintGroup::Correctness)
    } else if same_str(lint_id, "branches_sharing_code") {
        Some(LintGroup::Complexity)
    } else if same_str(lint_id, "cast_ptr_alignment") {
        Some(LintGroup::Correctness)
    } else if same_str(lint_id, "declare_interior_mutable_const") {
        Some(LintGroup::Correctness)
    } else if same_str(lint_id, "derive_partial_eq_without_eq") {
        Some(LintGroup::Style)
    } else if same_str(lint_id, "eval_order_dependence") {
        Some(LintGroup::Suspicious)
    } else if same_str(lint_id, "float_cmp") {
        Some(LintGroup::Correctness)
    } else if same_str(lint_id, "format_push_string") {
        Some(LintGroup::Perf)
    } else if same_str(lint_id, "index_refutable_slice") {
        Some(LintGroup::Nursery)
    } else if same_str(lint_id, "iter_with_drain") {
        Some(LintGroup::Perf)
    } else if same_str(lint_id, "manual_clamp") {
        Some(LintGroup::Complexity)
    } else if same_str(lint_id, "match_wild_err_arm") {
        Some(LintGroup::Style)
    } else if same_str(lint_id, "mixed_read_write_in_expression") {
        Some(LintGroup::Suspicious)
    } else if same_str(lint_id, "mutex_atomic") {
        Some(LintGroup::Perf)
    } else if same_str(lint_id, "needless_collect") {
        Some(LintGroup::Perf)
    } else if same_str(lint_id, "non_ascii_literal") {
        Some(LintGroup::Pedantic)
    } else if same_str(lint_id, "range_plus_one") {
        Some(LintGroup::Complexity)
    } else if same_str(lint_id, "significant_drop_in_scrutinee") {
        Some(LintGroup::Suspicious)
    } else if same_str(lint_id, "suspicious_operation_groupings") {
        Some(LintGroup::Style)
    } else if same_str(lint_id, "try_err") {
        Some(LintGroup::Style)
    } else if same_str(lint_id, "unnecessary_safety_doc") {
        Some(LintGroup::Style)
    } else if same_str(lint_id, "unnecessary_wraps") {
        Some(LintGroup::Complexity)
    } else if same_str(lint_id, "verbose_bit_mask") {
        Some(LintGroup::Style)
    } else {
        None
    }
}


/// One lint of the registry.
#[derive(Clone, Debug)]
pub struct Lint {
    pub id: String,
    pub group: LintGroup,
    pub level: LintLevel,
    /// The names that the lint had before.
    pub former_ids: Vec<String>,
}

/// What a `Lint` holds.
pub struct LintView {
    pub id: Seq<char>,
    pub group: LintGroup,
    pub level: LintLevel,
    pub former_ids: Seq<Seq<char>>,
}

impl View for Lint {
    type V = LintView;

    open spec fn view(&self) -> LintView {
        LintView {
            id: self.id@,
            group: self.group,
            level: self.level,
            former_ids: self.former_ids@.map_values(|s: String| s@),
        }
    }
}

/// Whether `lint` is known under `name`, now or formerly.
pub open spec fn answers_to(lint: LintView, name: Seq<char>) -> bool {
    lint.id == name || lint.former_ids.contains(name)
}

/// The place of the lint that `name` denotes: the last lint of the list that
/// is known under it.
pub open spec fn lookup_index(lints: Seq<LintView>, name: Seq<char>) -> Option<int>
    decreases lints.len(),
{
    if lints.len() == 0 {
        None
    } else if answers_to(lints.last(), name) {
        Some(lints.len() - 1)
    } else {
        lookup_index(lints.drop_last(), name)
    }
}

/// The current name of the lint that `name` denotes; `name` itself where the
/// registry does not know it.
pub open spec fn canonical_id(lints: Seq<LintView>, name: Seq<char>) -> Seq<char> {
    match lookup_index(lints, name) {
        Some(i) => lints[i].id,
        None => name,
    }
}

/// The group and level under which `name` is reported.
pub open spec fn group_and_level(lints: Seq<LintView>, name: Seq<char>) -> (LintGroup, LintLevel) {
    match lookup_index(lints, name) {
        Some(i) => (lints[i].group, lints[i].level),
        None => (LintGroup::Unknown, LintLevel::NoLevel),
    }
}

/// The place that a name is looked up at is the last place of a lint that
/// is known under the name.
pub proof fn lemma_lookup_index(lints: Seq<LintView>, name: Seq<char>)
    ensures
        match lookup_index(lints, name) {
            Some(i) => 0 <= i < lints.len() && answers_to(lints[i], name) && forall|j: int|
                i < j < lints.len() ==> !answers_to(#[trigger] lints[j], name),
            None => forall|j: int| 0 <= j < lints.len() ==> !answers_to(#[trigger] lints[j], name),
        },
    decreases lints.len(),
{
    if lints.len() > 0 && !answers_to(lints.last(), name) {
        let front = lints.drop_last();
        lemma_lookup_index(front, name);
        assert(forall|j: int| 0 <= j < front.len() ==> front[j] == lints[j]);
        match lookup_index(front, name) {
            Some(i) => {
                assert(answers_to(front[i], name));
                assert forall|j: int| i < j < lints.len() implies !answers_to(
                    #[trigger] lints[j],
                    name,
                ) by {
                    if j < front.len() {
                        assert(!answers_to(front[j], name));
                    }
                }
            },
            None => {
                assert forall|j: int| 0 <= j < lints.len() implies !answers_to(
                    #[trigger] lints[j],
                    name,
                ) by {
                    if j < front.len() {
                        assert(!answers_to(front[j], name));
                    }
                }
            },
        }
    }
}

/// Whether `name` is among `names`.
pub fn contains_name(names: &Vec<String>, name: &str) -> (r: bool)
    ensures
        r == names@.map_values(|s: String| s@).contains(name@),
{
    let ghost all = names@.map_values(|s: String| s@);
    let mut i: usize = 0;
    while i < names.len()
        invariant
            i <= names.len(),
            all == names@.map_values(|s: String| s@),
            forall|j: int| 0 <= j < i ==> all[j] != name@,
        decreases names.len() - i,
    {
        if same_str(names[i].as_str(), name) {
            assert(all[i as int] == name@);
            return true;
        }
        i += 1;
    }
    false
}

/// The lints of a run, each found under its current and its former names.
#[derive(Clone, Debug)]
pub struct Registry {
    pub lints: Vec<Lint>,
}

impl View for Registry {
    type V = Seq<LintView>;

    open spec fn view(&self) -> Seq<LintView> {
        self.lints@.map_values(|l: Lint| l@)
    }
}

impl Registry {
    /// The registry of the given lints.
    pub fn new(lints: Vec<Lint>) -> (registry: Self)
        ensures
            registry.lints == lints,
    {
        Registry { lints }
    }

    /// The lint that `name` denotes. Where several lints are known under
    /// `name`, the last of them is the one.
    pub fn get(&self, name: &str) -> (r: Option<&Lint>)
        ensures
            match (r, lookup_index(self@, name@)) {
                (Some(lint), Some(i)) => 0 <= i < self@.len() && lint@ == self@[i],
                (None, None) => true,
                _ => false,
            },
    {
        proof {
            lemma_lookup_index(self@, name@);
        }
        let mut i: usize = self.lints.len();
        while i > 0
            invariant
                i <= self.lints.len(),
                forall|j: int| i <= j < self.lints.len() ==> !answers_to(#[trigger] self@[j], name@),
            decreases i,
        {
            i -= 1;
            let lint = &self.lints[i];
            if same_str(lint.id.as_str(), name) || contains_name(&lint.former_ids, name) {
                assert(lint@ == self@[i as int]);
                assert(answers_to(self@[i as int], name@));
                proof {
                    lemma_lookup_index(self@, name@);
                    match lookup_index(self@, name@) {
                        Some(k) => {
                            assert(answers_to(self@[k], name@));
                            assert(k == i);
                        },
                        None => {},
                    }
                }
                return Some(lint);
            }
            assert(!answers_to(self@[i as int], name@));
        }
        None
    }

    /// The current name of the lint that `name` denotes; `name` itself where
    /// the registry does not know it.
    pub fn canonical(&self, name: String) -> (id: String)
        ensures
            id@ == canonical_id(self@, name@),
    {
        match self.get(name.as_str()) {
            Some(lint) => lint.id.clone(),
            None => name,
        }
    }

    /// The group and level of `name`; for a name that the registry does not
    /// know, the group `Unknown` and no level.
    pub fn classify(&self, name: &str) -> (r: (LintGroup, LintLevel))
        ensures
            r == group_and_level(self@, name@),
    {
        match self.get(name) {
            Some(lint) => (lint.group, lint.level),
            None => (LintGroup::Unknown, LintLevel::NoLevel),
        }
    }
}


/// Whether no lint's current name is a former name of another lint: every
/// former name leads to a current one in one step.
pub open spec fn is_resolved(lints: Seq<LintView>) -> bool {
    forall|i: int, k: int|
        0 <= i < lints.len() && 0 <= k < lints.len() && i != k ==> !(#[trigger] lints[k]).former_ids.contains(
            (#[trigger] lints[i]).id,
        )
}

/// In a registry whose former names lead to current ones in one step, the
/// current name of a lint is its own current name.
pub proof fn law_canonical_is_current(lints: Seq<LintView>, name: Seq<char>)
    requires
        is_resolved(lints),
    ensures
        canonical_id(lints, canonical_id(lints, name)) == canonical_id(lints, name),
{
    lemma_lookup_index(lints, name);
    let current = canonical_id(lints, name);
    lemma_lookup_index(lints, current);
    match lookup_index(lints, name) {
        Some(i) => {
            match lookup_index(lints, current) {
                Some(k) => {
                    assert(answers_to(lints[k], current));
                    if k != i {
                        assert(!lints[k].former_ids.contains(lints[i].id));
                    }
                },
                None => {},
            }
        },
        None => {},
    }
}

} // verus!
