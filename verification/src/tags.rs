//! The controlled tag vocabulary: which free-text tags count as issue
//! tags, and which scoring axes each issue tag influences.

use vstd::prelude::*;
use crate::text::str_eq;

verus! {

/// The closed set of recognized issue tags.
pub open spec fn spec_is_issue_tag(t: Seq<char>) -> bool {
    ||| t == "zoning"@
    ||| t == "rezoning"@
    ||| t == "variance"@
    ||| t == "planning_commission"@
    ||| t == "budget"@
    ||| t == "tax"@
    ||| t == "bond"@
    ||| t == "appropriation"@
    ||| t == "contract"@
    ||| t == "bid"@
    ||| t == "procurement"@
    ||| t == "election"@
    ||| t == "clerk"@
    ||| t == "ballot"@
    ||| t == "school_board"@
    ||| t == "curriculum"@
    ||| t == "policy"@
    ||| t == "lawsuit"@
    ||| t == "settlement"@
    ||| t == "ordinance"@
    ||| t == "public_safety"@
    ||| t == "land_sale"@
    ||| t == "eminent_domain"@
    ||| t == "transparency"@
}

/// Whether a tag belongs to the controlled vocabulary.
pub fn is_issue_tag(tag: &str) -> (r: bool)
    ensures
        r == spec_is_issue_tag(tag@),
{
    str_eq(tag, "zoning") || str_eq(tag, "rezoning") || str_eq(tag, "variance") || str_eq(
        tag,
        "planning_commission",
    ) || str_eq(tag, "budget") || str_eq(tag, "tax") || str_eq(tag, "bond") || str_eq(
        tag,
        "appropriation",
    ) || str_eq(tag, "contract") || str_eq(tag, "bid") || str_eq(tag, "procurement") || str_eq(
        tag,
        "election",
    ) || str_eq(tag, "clerk") || str_eq(tag, "ballot") || str_eq(tag, "school_board") || str_eq(
        tag,
        "curriculum",
    ) || str_eq(tag, "policy") || str_eq(tag, "lawsuit") || str_eq(tag, "settlement") || str_eq(
        tag,
        "ordinance",
    ) || str_eq(tag, "public_safety") || str_eq(tag, "land_sale") || str_eq(tag, "eminent_domain")
        || str_eq(tag, "transparency")
}

/// The axes a recognized issue tag influences.
pub open spec fn spec_tag_axes(t: Seq<char>) -> Seq<Seq<char>> {
    if t == "budget"@ || t == "tax"@ || t == "bond"@ || t == "appropriation"@ || t == "contract"@
        || t == "bid"@ || t == "procurement"@ {
        seq!["fiscal_restraint"@]
    } else if t == "zoning"@ || t == "rezoning"@ || t == "variance"@ || t == "land_sale"@ || t
        == "eminent_domain"@ {
        seq!["property_rights"@]
    } else if t == "transparency"@ || t == "ordinance"@ {
        seq!["transparency"@]
    } else {
        Seq::empty()
    }
}

/// The axes a tag influences, in the vocabulary's order.
pub fn tag_axes(tag: &str) -> (r: Vec<&'static str>)
    ensures
        r.deep_view() == spec_tag_axes(tag@),
{
    let mut axes: Vec<&'static str> = Vec::new();
    if str_eq(tag, "budget") || str_eq(tag, "tax") || str_eq(tag, "bond") || str_eq(
        tag,
        "appropriation",
    ) || str_eq(tag, "contract") || str_eq(tag, "bid") || str_eq(tag, "procurement") {
        axes.push("fiscal_restraint");
    } else if str_eq(tag, "zoning") || str_eq(tag, "rezoning") || str_eq(tag, "variance")
        || str_eq(tag, "land_sale") || str_eq(tag, "eminent_domain") {
        axes.push("property_rights");
    } else if str_eq(tag, "transparency") || str_eq(tag, "ordinance") {
        axes.push("transparency");
    }
    proof {
        assert(axes.deep_view() =~= spec_tag_axes(tag@));
    }
    axes
}

/// The spending keywords that trigger the fiscal-restraint bias control.
pub open spec fn spec_spending_keywords() -> Seq<Seq<char>> {
    seq!["appropriation"@, "budget"@, "tax"@, "bond"@, "contract"@, "bid"@]
}

/// Whether the case-folded motion text contains any spending keyword.
pub open spec fn spec_has_spending_language(text: Seq<char>) -> bool {
    exists|k: int|
        0 <= k < spec_spending_keywords().len() && crate::text::spec_contains(
            crate::text::lower_of(text),
            #[trigger] spec_spending_keywords()[k],
        )
}

/// Whether the motion text, case-folded, mentions any spending keyword.
pub fn has_spending_language(text: &str) -> (r: bool)
    ensures
        r == spec_has_spending_language(text@),
{
    let lowered = crate::text::lowercase(text);
    let l = lowered.as_str();
    let c0 = crate::text::contains_str(l, "appropriation");
    let c1 = crate::text::contains_str(l, "budget");
    let c2 = crate::text::contains_str(l, "tax");
    let c3 = crate::text::contains_str(l, "bond");
    let c4 = crate::text::contains_str(l, "contract");
    let c5 = crate::text::contains_str(l, "bid");
    let r = c0 || c1 || c2 || c3 || c4 || c5;
    proof {
        if r {
            if c0 {
                assert(spec_spending_keywords()[0] == "appropriation"@);
            } else if c1 {
                assert(spec_spending_keywords()[1] == "budget"@);
            } else if c2 {
                assert(spec_spending_keywords()[2] == "tax"@);
            } else if c3 {
                assert(spec_spending_keywords()[3] == "bond"@);
            } else if c4 {
                assert(spec_spending_keywords()[4] == "contract"@);
            } else {
                assert(spec_spending_keywords()[5] == "bid"@);
            }
        } else {
            assert forall|k: int| 0 <= k < spec_spending_keywords().len() implies
                !crate::text::spec_contains(
                crate::text::lower_of(text@),
                #[trigger] spec_spending_keywords()[k],
            ) by {
                if k == 0 {
                } else if k == 1 {
                } else if k == 2 {
                } else if k == 3 {
                } else if k == 4 {
                } else {
                    assert(k == 5);
                }
            }
        }
    }
    r
}

} // verus!
