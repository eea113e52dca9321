//! The allow-list of the comparison: each entry names one place of one
//! document where a difference between the two generations is known and
//! accepted.
use vstd::prelude::*;
use crate::policy::{entries_view, AllowEntry};
use crate::text::chars_of;

verus! {

fn push_entry(list: &mut Vec<AllowEntry>, file: &str, path: &str)
    ensures
        entries_view(final(list)@) == entries_view(old(list)@).push((file@, path@)),
{
    list.push(AllowEntry { file: chars_of(file), path: chars_of(path) });
    proof {
        assert(entries_view(list@) =~= entries_view(old(list)@).push((file@, path@)));
    }
}
/// Part 1 of the allow-list.
pub open spec fn allowlist_part_1() -> Seq<(Seq<char>, Seq<char>)> {
    seq![
        ("docs/glossary/http/index.json"@, "doc.body.0.value.content"@),
        ("docs/learn/html/multimedia_and_embedding/other_embedding_technologies/index.json"@, "doc.body.4.value.content"@),
        ("docs/web/http/headers/content-security-policy/frame-ancestors/index.json"@, "doc.body.2.value.content"@),
        ("docs/learn/learning_and_getting_help/index.json"@, "doc.body.3.value.content"@),
        ("docs/web/media/formats/video_codecs/index.json"@, "doc.body.6.value.content"@),
        ("docs/learn/forms/form_validation/index.json"@, "doc.body.12.value.content"@),
        ("docs/mdn/writing_guidelines/page_structures/live_samples/index.json"@, "doc.body.9.value.content"@),
        ("docs/web/html/element/img/index.json"@, "doc.body.15.value.content"@),
        ("docs/web/css/_colon_-moz-window-inactive/index.json"@, "doc.body.5.value.content"@),
        ("docs/learn/server-side/express_nodejs/deployment/index.json"@, "doc.body.11.value.content"@),
        ("docs/web/http/headers/set-login/index.json"@, "doc.body.2.value.content"@),
        ("docs/web/html/element/a/index.json"@, "doc.body.2.value.content"@),
        ("docs/web/css/background-size/index.json"@, "doc.body.4.value.content"@),
        ("docs/web/css/color_value/color-mix/index.json"@, "doc.body.2.value.content"@),
        ("docs/learn/common_questions/design_and_accessibility/design_for_all_types_of_users/index.json"@, "doc.body.5.value.content"@),
        ("docs/learn/html/multimedia_and_embedding/video_and_audio_content/index.json"@, "doc.body.2.value.content"@),
        ("docs/web/http/headers/content-security-policy/sources/index.json"@, "doc.body.1.value.content"@),
        ("docs/learn/css/howto/css_faq/index.json"@, "doc.body.11.value.id"@),
        ("docs/learn/forms/property_compatibility_table_for_form_controls/index.json"@, "doc.body.2.value.content"@),
        ("docs/learn/html/howto/define_terms_with_html/index.json"@, "doc.body.0.value.content"@),
    ]
}

fn push_part_1(list: &mut Vec<AllowEntry>)
    ensures
        entries_view(final(list)@) == entries_view(old(list)@) + allowlist_part_1(),
{
    push_entry(list, "docs/glossary/http/index.json", "doc.body.0.value.content");
    push_entry(list, "docs/learn/html/multimedia_and_embedding/other_embedding_technologies/index.json", "doc.body.4.value.content");
    push_entry(list, "docs/web/http/headers/content-security-policy/frame-ancestors/index.json", "doc.body.2.value.content");
    push_entry(list, "docs/learn/learning_and_getting_help/index.json", "doc.body.3.value.content");
    push_entry(list, "docs/web/media/formats/video_codecs/index.json", "doc.body.6.value.content");
    push_entry(list, "docs/learn/forms/form_validation/index.json", "doc.body.12.value.content");
    push_entry(list, "docs/mdn/writing_guidelines/page_structures/live_samples/index.json", "doc.body.9.value.content");
    push_entry(list, "docs/web/html/element/img/index.json", "doc.body.15.value.content");
    push_entry(list, "docs/web/css/_colon_-moz-window-inactive/index.json", "doc.body.5.value.content");
    push_entry(list, "docs/learn/server-side/express_nodejs/deployment/index.json", "doc.body.11.value.content");
    push_entry(list, "docs/web/http/headers/set-login/index.json", "doc.body.2.value.content");
    push_entry(list, "docs/web/html/element/a/index.json", "doc.body.2.value.content");
    push_entry(list, "docs/web/css/background-size/index.json", "doc.body.4.value.content");
    push_entry(list, "docs/web/css/color_value/color-mix/index.json", "doc.body.2.value.content");
    push_entry(list, "docs/learn/common_questions/design_and_accessibility/design_for_all_types_of_users/index.json", "doc.body.5.value.content");
    push_entry(list, "docs/learn/html/multimedia_and_embedding/video_and_audio_content/index.json", "doc.body.2.value.content");
    push_entry(list, "docs/web/http/headers/content-security-policy/sources/index.json", "doc.body.1.value.content");
    push_entry(list, "docs/learn/css/howto/css_faq/index.json", "doc.body.11.value.id");
    push_entry(list, "docs/learn/forms/property_compatibility_table_for_form_controls/index.json", "doc.body.2.value.content");
    push_entry(list, "docs/learn/html/howto/define_terms_with_html/index.json", "doc.body.0.value.content");
    proof {
        assert(entries_view(list@) =~= entries_view(old(list)@) + allowlist_part_1());
    }
}

/// Part 2 of the allow-list.
pub open spec fn allowlist_part_2() -> Seq<(Seq<char>, Seq<char>)> {
    seq![
        ("docs/learn/tools_and_testing/client-side_javascript_frameworks/react_interactivity_filtering_conditional_rendering/index.json"@, "doc.toc.3.id"@),
        ("docs/learn/tools_and_testing/client-side_javascript_frameworks/react_interactivity_filtering_conditional_rendering/index.json"@, "doc.body.4.value.id"@),
        ("docs/mdn/mdn_product_advisory_board/index.json"@, "doc.body.1.value.content"@),
        ("docs/mdn/writing_guidelines/page_structures/live_samples/index.json"@, "doc.body.11.value.content"@),
        ("docs/mdn/writing_guidelines/page_structures/live_samples/index.json"@, "doc.body.12.value.content"@),
        ("docs/mdn/writing_guidelines/page_structures/live_samples/index.json"@, "doc.body.3.value.content"@),
        ("docs/web/performance/speculative_loading/index.json"@, "doc.body.9.value.id"@),
        ("docs/web/manifest/shortcuts/index.json"@, "doc.toc.1.id"@),
        ("docs/web/svg/attribute/preserveaspectratio/index.json"@, "doc.body.3.value.id"@),
        ("docs/web/svg/attribute/preserveaspectratio/index.json"@, "doc.body.4.value.id"@),
        ("docs/web/svg/attribute/preserveaspectratio/index.json"@, "doc.body.5.value.id"@),
        ("docs/web/svg/attribute/preserveaspectratio/index.json"@, "doc.body.6.value.id"@),
        ("docs/web/mathml/element/mfenced/index.json"@, "doc.body.4.value.content"@),
        ("docs/web/javascript/reference/classes/index.json"@, "doc.body.3.value.content"@),
        ("docs/web/javascript/reference/operators/nullish_coalescing/index.json"@, "doc.body.8.value.id"@),
        ("docs/web/css/css_containment/container_size_and_style_queries/index.json"@, "doc.toc.0.id"@),
        ("docs/web/css/css_containment/container_size_and_style_queries/index.json"@, "doc.toc.2.id"@),
        ("docs/web/css/@property/syntax/index.json"@, "doc.body.4.value.content"@),
        ("docs/web/css/css_nesting/nesting_and_specificity/index.json"@, "doc.body.1.value.id"@),
        ("docs/web/css/css_scroll_snap/using_scroll_snap_events/index.json"@, "doc.body.10.value.content"@),
    ]
}

fn push_part_2(list: &mut Vec<AllowEntry>)
    ensures
        entries_view(final(list)@) == entries_view(old(list)@) + allowlist_part_2(),
{
    push_entry(list, "docs/learn/tools_and_testing/client-side_javascript_frameworks/react_interactivity_filtering_conditional_rendering/index.json", "doc.toc.3.id");
    push_entry(list, "docs/learn/tools_and_testing/client-side_javascript_frameworks/react_interactivity_filtering_conditional_rendering/index.json", "doc.body.4.value.id");
    push_entry(list, "docs/mdn/mdn_product_advisory_board/index.json", "doc.body.1.value.content");
    push_entry(list, "docs/mdn/writing_guidelines/page_structures/live_samples/index.json", "doc.body.11.value.content");
    push_entry(list, "docs/mdn/writing_guidelines/page_structures/live_samples/index.json", "doc.body.12.value.content");
    push_entry(list, "docs/mdn/writing_guidelines/page_structures/live_samples/index.json", "doc.body.3.value.content");
    push_entry(list, "docs/web/performance/speculative_loading/index.json", "doc.body.9.value.id");
    push_entry(list, "docs/web/manifest/shortcuts/index.json", "doc.toc.1.id");
    push_entry(list, "docs/web/svg/attribute/preserveaspectratio/index.json", "doc.body.3.value.id");
    push_entry(list, "docs/web/svg/attribute/preserveaspectratio/index.json", "doc.body.4.value.id");
    push_entry(list, "docs/web/svg/attribute/preserveaspectratio/index.json", "doc.body.5.value.id");
    push_entry(list, "docs/web/svg/attribute/preserveaspectratio/index.json", "doc.body.6.value.id");
    push_entry(list, "docs/web/mathml/element/mfenced/index.json", "doc.body.4.value.content");
    push_entry(list, "docs/web/javascript/reference/classes/index.json", "doc.body.3.value.content");
    push_entry(list, "docs/web/javascript/reference/operators/nullish_coalescing/index.json", "doc.body.8.value.id");
    push_entry(list, "docs/web/css/css_containment/container_size_and_style_queries/index.json", "doc.toc.0.id");
    push_entry(list, "docs/web/css/css_containment/container_size_and_style_queries/index.json", "doc.toc.2.id");
    push_entry(list, "docs/web/css/@property/syntax/index.json", "doc.body.4.value.content");
    push_entry(list, "docs/web/css/css_nesting/nesting_and_specificity/index.json", "doc.body.1.value.id");
    push_entry(list, "docs/web/css/css_scroll_snap/using_scroll_snap_events/index.json", "doc.body.10.value.content");
    proof {
        assert(entries_view(list@) =~= entries_view(old(list)@) + allowlist_part_2());
    }
}

/// Part 3 of the allow-list.
pub open spec fn allowlist_part_3() -> Seq<(Seq<char>, Seq<char>)> {
    seq![
        ("docs/web/css/css_nesting/nesting_and_specificity/index.json"@, "doc.toc.0.id"@),
        ("docs/web/css/nesting_selector/index.json"@, "doc.body.2.value.id"@),
        ("docs/web/css/offset/index.json"@, "doc.body.5.value.content"@),
        ("docs/web/css/position-try-fallbacks/index.json"@, "doc.body.7.value.content"@),
        ("docs/web/css/position-try/index.json"@, "doc.body.5.value.content"@),
        ("docs/web/css/position-area_value/index.json"@, "doc.toc.5.id"@),
        ("docs/learn/forms/styling_web_forms/index.json"@, "doc.body.10.value.content"@),
        ("docs/mdn/kitchensink/index.json"@, "doc.body.24.value.content"@),
        ("docs/web/svg/attribute/begin/index.json"@, "doc.body.3.value.content"@),
        ("docs/web/svg/attribute/begin/index.json"@, "doc.body.4.value.content"@),
        ("docs/web/svg/attribute/begin/index.json"@, "doc.body.5.value.content"@),
        ("docs/web/svg/attribute/begin/index.json"@, "doc.body.6.value.content"@),
        ("docs/web/svg/attribute/begin/index.json"@, "doc.body.7.value.content"@),
        ("docs/web/javascript/reference/global_objects/set/index.json"@, "doc.body.4.value.content"@),
        ("docs/learn/html/introduction_to_html/html_text_fundamentals/index.json"@, "doc.body.15.value.content"@),
        ("docs/learn/tools_and_testing/client-side_javascript_frameworks/vue_computed_properties/index.json"@, "doc.body.1.value.content"@),
        ("docs/learn/tools_and_testing/client-side_javascript_frameworks/react_interactivity_filtering_conditional_rendering/index.json"@, "doc.body.4.value.i"@),
        ("docs/mdn/writing_guidelines/page_structures/links/index.json"@, "doc.body.3.value.content"@),
        ("docs/mdn/writing_guidelines/page_structures/links/index.json"@, "doc.body.4.value.content"@),
        ("docs/mdn/writing_guidelines/page_structures/macros/commonly_used_macros/index.json"@, "doc.body.14.value.content"@),
    ]
}

fn push_part_3(list: &mut Vec<AllowEntry>)
    ensures
        entries_view(final(list)@) == entries_view(old(list)@) + allowlist_part_3(),
{
    push_entry(list, "docs/web/css/css_nesting/nesting_and_specificity/index.json", "doc.toc.0.id");
    push_entry(list, "docs/web/css/nesting_selector/index.json", "doc.body.2.value.id");
    push_entry(list, "docs/web/css/offset/index.json", "doc.body.5.value.content");
    push_entry(list, "docs/web/css/position-try-fallbacks/index.json", "doc.body.7.value.content");
    push_entry(list, "docs/web/css/position-try/index.json", "doc.body.5.value.content");
    push_entry(list, "docs/web/css/position-area_value/index.json", "doc.toc.5.id");
    push_entry(list, "docs/learn/forms/styling_web_forms/index.json", "doc.body.10.value.content");
    push_entry(list, "docs/mdn/kitchensink/index.json", "doc.body.24.value.content");
    push_entry(list, "docs/web/svg/attribute/begin/index.json", "doc.body.3.value.content");
    push_entry(list, "docs/web/svg/attribute/begin/index.json", "doc.body.4.value.content");
    push_entry(list, "docs/web/svg/attribute/begin/index.json", "doc.body.5.value.content");
    push_entry(list, "docs/web/svg/attribute/begin/index.json", "doc.body.6.value.content");
    push_entry(list, "docs/web/svg/attribute/begin/index.json", "doc.body.7.value.content");
    push_entry(list, "docs/web/javascript/reference/global_objects/set/index.json", "doc.body.4.value.content");
    push_entry(list, "docs/learn/html/introduction_to_html/html_text_fundamentals/index.json", "doc.body.15.value.content");
    push_entry(list, "docs/learn/tools_and_testing/client-side_javascript_frameworks/vue_computed_properties/index.json", "doc.body.1.value.content");
    push_entry(list, "docs/learn/tools_and_testing/client-side_javascript_frameworks/react_interactivity_filtering_conditional_rendering/index.json", "doc.body.4.value.i");
    push_entry(list, "docs/mdn/writing_guidelines/page_structures/links/index.json", "doc.body.3.value.content");
    push_entry(list, "docs/mdn/writing_guidelines/page_structures/links/index.json", "doc.body.4.value.content");
    push_entry(list, "docs/mdn/writing_guidelines/page_structures/macros/commonly_used_macros/index.json", "doc.body.14.value.content");
    proof {
        assert(entries_view(list@) =~= entries_view(old(list)@) + allowlist_part_3());
    }
}

/// Part 4 of the allow-list.
pub open spec fn allowlist_part_4() -> Seq<(Seq<char>, Seq<char>)> {
    seq![
        ("docs/web/svg/attribute/d/index.json"@, "doc.body.7.value.content"@),
        ("docs/web/svg/attribute/d/index.json"@, "doc.body.8.value.content"@),
        ("docs/mdn/community/discussions/index.json"@, "doc.body.0.value.content"@),
        ("docs/web/http/headers/te/index.json"@, "doc.body.1.value.content"@),
        ("docs/mdn/kitchensink/index.json"@, "doc.baseline"@),
        ("docs/mdn/writing_guidelines/page_structures/compatibility_tables/index.json"@, "doc.baseline"@),
        ("docs/web/svg/attribute/data-_star_/index.json"@, "doc.body.1.value.specifications.0"@),
        ("docs/web/http/headers/permissions-policy/screen-wake-lock/index.json"@, "doc.baseline"@),
        ("docs/web/mathml/global_attributes/mathbackground/index.json"@, "doc.body.3.value.content"@),
        ("docs/web/mathml/global_attributes/mathbackground/index.json"@, "doc.body.4.type"@),
        ("docs/web/mathml/global_attributes/mathbackground/index.json"@, "doc.body.4.value.content"@),
        ("docs/web/mathml/global_attributes/mathbackground/index.json"@, "doc.body.4.value.id"@),
        ("docs/web/mathml/global_attributes/mathbackground/index.json"@, "doc.body.4.value.query"@),
        ("docs/web/mathml/global_attributes/mathbackground/index.json"@, "doc.body.4.value.title"@),
        ("docs/web/mathml/global_attributes/mathbackground/index.json"@, "doc.body.5.type"@),
        ("docs/web/mathml/global_attributes/mathbackground/index.json"@, "doc.body.5.value.content"@),
        ("docs/web/mathml/global_attributes/mathbackground/index.json"@, "doc.body.5.value.id"@),
        ("docs/web/mathml/global_attributes/mathbackground/index.json"@, "doc.body.5.value.query"@),
        ("docs/web/mathml/global_attributes/mathbackground/index.json"@, "doc.body.5.value.title"@),
        ("docs/web/mathml/global_attributes/mathbackground/index.json"@, "doc.body.6"@),
    ]
}

fn push_part_4(list: &mut Vec<AllowEntry>)
    ensures
        entries_view(final(list)@) == entries_view(old(list)@) + allowlist_part_4(),
{
    push_entry(list, "docs/web/svg/attribute/d/index.json", "doc.body.7.value.content");
    push_entry(list, "docs/web/svg/attribute/d/index.json", "doc.body.8.value.content");
    push_entry(list, "docs/mdn/community/discussions/index.json", "doc.body.0.value.content");
    push_entry(list, "docs/web/http/headers/te/index.json", "doc.body.1.value.content");
    push_entry(list, "docs/mdn/kitchensink/index.json", "doc.baseline");
    push_entry(list, "docs/mdn/writing_guidelines/page_structures/compatibility_tables/index.json", "doc.baseline");
    push_entry(list, "docs/web/svg/attribute/data-_star_/index.json", "doc.body.1.value.specifications.0");
    push_entry(list, "docs/web/http/headers/permissions-policy/screen-wake-lock/index.json", "doc.baseline");
    push_entry(list, "docs/web/mathml/global_attributes/mathbackground/index.json", "doc.body.3.value.content");
    push_entry(list, "docs/web/mathml/global_attributes/mathbackground/index.json", "doc.body.4.type");
    push_entry(list, "docs/web/mathml/global_attributes/mathbackground/index.json", "doc.body.4.value.content");
    push_entry(list, "docs/web/mathml/global_attributes/mathbackground/index.json", "doc.body.4.value.id");
    push_entry(list, "docs/web/mathml/global_attributes/mathbackground/index.json", "doc.body.4.value.query");
    push_entry(list, "docs/web/mathml/global_attributes/mathbackground/index.json", "doc.body.4.value.title");
    push_entry(list, "docs/web/mathml/global_attributes/mathbackground/index.json", "doc.body.5.type");
    push_entry(list, "docs/web/mathml/global_attributes/mathbackground/index.json", "doc.body.5.value.content");
    push_entry(list, "docs/web/mathml/global_attributes/mathbackground/index.json", "doc.body.5.value.id");
    push_entry(list, "docs/web/mathml/global_attributes/mathbackground/index.json", "doc.body.5.value.query");
    push_entry(list, "docs/web/mathml/global_attributes/mathbackground/index.json", "doc.body.5.value.title");
    push_entry(list, "docs/web/mathml/global_attributes/mathbackground/index.json", "doc.body.6");
    proof {
        assert(entries_view(list@) =~= entries_view(old(list)@) + allowlist_part_4());
    }
}

/// Part 5 of the allow-list.
pub open spec fn allowlist_part_5() -> Seq<(Seq<char>, Seq<char>)> {
    seq![
        ("docs/web/mathml/global_attributes/mathcolor/index.json"@, "doc.body.3.value.content"@),
        ("docs/web/mathml/global_attributes/mathcolor/index.json"@, "doc.body.4.type"@),
        ("docs/web/mathml/global_attributes/mathcolor/index.json"@, "doc.body.4.value.content"@),
        ("docs/web/mathml/global_attributes/mathcolor/index.json"@, "doc.body.4.value.id"@),
        ("docs/web/mathml/global_attributes/mathcolor/index.json"@, "doc.body.4.value.query"@),
        ("docs/web/mathml/global_attributes/mathcolor/index.json"@, "doc.body.4.value.title"@),
        ("docs/web/mathml/global_attributes/mathcolor/index.json"@, "doc.body.5.type"@),
        ("docs/web/mathml/global_attributes/mathcolor/index.json"@, "doc.body.5.value.content"@),
        ("docs/web/mathml/global_attributes/mathcolor/index.json"@, "doc.body.5.value.id"@),
        ("docs/web/mathml/global_attributes/mathcolor/index.json"@, "doc.body.5.value.query"@),
        ("docs/web/mathml/global_attributes/mathcolor/index.json"@, "doc.body.5.value.title"@),
        ("docs/web/mathml/global_attributes/mathcolor/index.json"@, "doc.body.6"@),
        ("docs/web/mathml/global_attributes/mathsize/index.json"@, "doc.body.3.value.content"@),
        ("docs/web/mathml/global_attributes/mathsize/index.json"@, "doc.body.4.type"@),
        ("docs/web/mathml/global_attributes/mathsize/index.json"@, "doc.body.4.value.content"@),
        ("docs/web/mathml/global_attributes/mathsize/index.json"@, "doc.body.4.value.id"@),
        ("docs/web/mathml/global_attributes/mathsize/index.json"@, "doc.body.4.value.query"@),
        ("docs/web/mathml/global_attributes/mathsize/index.json"@, "doc.body.4.value.title"@),
        ("docs/web/mathml/global_attributes/mathsize/index.json"@, "doc.body.5.type"@),
        ("docs/web/mathml/global_attributes/mathsize/index.json"@, "doc.body.5.value.content"@),
    ]
}

fn push_part_5(list: &mut Vec<AllowEntry>)
    ensures
        entries_view(final(list)@) == entries_view(old(list)@) + allowlist_part_5(),
{
    push_entry(list, "docs/web/mathml/global_attributes/mathcolor/index.json", "doc.body.3.value.content");
    push_entry(list, "docs/web/mathml/global_attributes/mathcolor/index.json", "doc.body.4.type");
    push_entry(list, "docs/web/mathml/global_attributes/mathcolor/index.json", "doc.body.4.value.content");
    push_entry(list, "docs/web/mathml/global_attributes/mathcolor/index.json", "doc.body.4.value.id");
    push_entry(list, "docs/web/mathml/global_attributes/mathcolor/index.json", "doc.body.4.value.query");
    push_entry(list, "docs/web/mathml/global_attributes/mathcolor/index.json", "doc.body.4.value.title");
    push_entry(list, "docs/web/mathml/global_attributes/mathcolor/index.json", "doc.body.5.type");
    push_entry(list, "docs/web/mathml/global_attributes/mathcolor/index.json", "doc.body.5.value.content");
    push_entry(list, "docs/web/mathml/global_attributes/mathcolor/index.json", "doc.body.5.value.id");
    push_entry(list, "docs/web/mathml/global_attributes/mathcolor/index.json", "doc.body.5.value.query");
    push_entry(list, "docs/web/mathml/global_attributes/mathcolor/index.json", "doc.body.5.value.title");
    push_entry(list, "docs/web/mathml/global_attributes/mathcolor/index.json", "doc.body.6");
    push_entry(list, "docs/web/mathml/global_attributes/mathsize/index.json", "doc.body.3.value.content");
    push_entry(list, "docs/web/mathml/global_attributes/mathsize/index.json", "doc.body.4.type");
    push_entry(list, "docs/web/mathml/global_attributes/mathsize/index.json", "doc.body.4.value.content");
    push_entry(list, "docs/web/mathml/global_attributes/mathsize/index.json", "doc.body.4.value.id");
    push_entry(list, "docs/web/mathml/global_attributes/mathsize/index.json", "doc.body.4.value.query");
    push_entry(list, "docs/web/mathml/global_attributes/mathsize/index.json", "doc.body.4.value.title");
    push_entry(list, "docs/web/mathml/global_attributes/mathsize/index.json", "doc.body.5.type");
    push_entry(list, "docs/web/mathml/global_attributes/mathsize/index.json", "doc.body.5.value.content");
    proof {
        assert(entries_view(list@) =~= entries_view(old(list)@) + allowlist_part_5());
    }
}

/// Part 6 of the allow-list.
pub open spec fn allowlist_part_6() -> Seq<(Seq<char>, Seq<char>)> {
    seq![
        ("docs/web/mathml/global_attributes/mathsize/index.json"@, "doc.body.5.value.id"@),
        ("docs/web/mathml/global_attributes/mathsize/index.json"@, "doc.body.5.value.query"@),
        ("docs/web/mathml/global_attributes/mathsize/index.json"@, "doc.body.5.value.title"@),
        ("docs/web/mathml/global_attributes/mathsize/index.json"@, "doc.body.6"@),
        ("docs/web/css/color_value/hwb/index.json"@, "doc.baseline"@),
        ("docs/web/css/@media/dynamic-range/index.json"@, "doc.baseline"@),
        ("docs/web/css/cursor/index.json"@, "doc.body.5.value.content"@),
        ("docs/web/css/font-stretch/index.json"@, "doc.body.8.value.content"@),
        ("docs/mdn/kitchensink/index.json"@, "doc.body.23.value.title"@),
        ("docs/mdn/writing_guidelines/howto/write_an_api_reference/index.json"@, "doc.body.8.value.content"@),
        ("docs/mdn/writing_guidelines/page_structures/code_examples/index.json"@, "doc.body.7.value.content"@),
        ("docs/mdn/writing_guidelines/howto/write_an_api_reference/information_contained_in_a_webidl_file/index.json"@, "doc.body.23.value.content"@),
        ("docs/web/accessibility/aria/attributes/aria-autocomplete/index.json"@, "doc.body.4.value.specifications.1.bcdSpecificationURL"@),
        ("docs/web/accessibility/aria/attributes/aria-autocomplete/index.json"@, "doc.body.4.value.specifications.2"@),
        ("docs/web/accessibility/aria/roles/combobox_role/index.json"@, "doc.body.5.value.specifications.1.bcdSpecificationURL"@),
        ("docs/web/accessibility/aria/roles/combobox_role/index.json"@, "doc.body.5.value.specifications.2"@),
        ("docs/web/security/practical_implementation_guides/tls/index.json"@, "doc.body.10.value.content"@),
        ("docs/web/css/reference/index.json"@, "doc.body.4.value.content"@),
        ("docs/web/html/element/input/button/index.json"@, "doc.body.11.value.content"@),
        ("docs/web/html/element/input/color/index.json"@, "doc.body.12.value.content"@),
    ]
}

fn push_part_6(list: &mut Vec<AllowEntry>)
    ensures
        entries_view(final(list)@) == entries_view(old(list)@) + allowlist_part_6(),
{
    push_entry(list, "docs/web/mathml/global_attributes/mathsize/index.json", "doc.body.5.value.id");
    push_entry(list, "docs/web/mathml/global_attributes/mathsize/index.json", "doc.body.5.value.query");
    push_entry(list, "docs/web/mathml/global_attributes/mathsize/index.json", "doc.body.5.value.title");
    push_entry(list, "docs/web/mathml/global_attributes/mathsize/index.json", "doc.body.6");
    push_entry(list, "docs/web/css/color_value/hwb/index.json", "doc.baseline");
    push_entry(list, "docs/web/css/@media/dynamic-range/index.json", "doc.baseline");
    push_entry(list, "docs/web/css/cursor/index.json", "doc.body.5.value.content");
    push_entry(list, "docs/web/css/font-stretch/index.json", "doc.body.8.value.content");
    push_entry(list, "docs/mdn/kitchensink/index.json", "doc.body.23.value.title");
    push_entry(list, "docs/mdn/writing_guidelines/howto/write_an_api_reference/index.json", "doc.body.8.value.content");
    push_entry(list, "docs/mdn/writing_guidelines/page_structures/code_examples/index.json", "doc.body.7.value.content");
    push_entry(list, "docs/mdn/writing_guidelines/howto/write_an_api_reference/information_contained_in_a_webidl_file/index.json", "doc.body.23.value.content");
    push_entry(list, "docs/web/accessibility/aria/attributes/aria-autocomplete/index.json", "doc.body.4.value.specifications.1.bcdSpecificationURL");
    push_entry(list, "docs/web/accessibility/aria/attributes/aria-autocomplete/index.json", "doc.body.4.value.specifications.2");
    push_entry(list, "docs/web/accessibility/aria/roles/combobox_role/index.json", "doc.body.5.value.specifications.1.bcdSpecificationURL");
    push_entry(list, "docs/web/accessibility/aria/roles/combobox_role/index.json", "doc.body.5.value.specifications.2");
    push_entry(list, "docs/web/security/practical_implementation_guides/tls/index.json", "doc.body.10.value.content");
    push_entry(list, "docs/web/css/reference/index.json", "doc.body.4.value.content");
    push_entry(list, "docs/web/html/element/input/button/index.json", "doc.body.11.value.content");
    push_entry(list, "docs/web/html/element/input/color/index.json", "doc.body.12.value.content");
    proof {
        assert(entries_view(list@) =~= entries_view(old(list)@) + allowlist_part_6());
    }
}

/// Part 7 of the allow-list.
pub open spec fn allowlist_part_7() -> Seq<(Seq<char>, Seq<char>)> {
    seq![
        ("docs/web/html/element/input/date/index.json"@, "doc.body.16.value.content"@),
        ("docs/web/html/element/input/datetime-local/index.json"@, "doc.body.14.value.content"@),
        ("docs/web/html/element/input/email/index.json"@, "doc.body.22.value.content"@),
        ("docs/web/html/element/input/file/index.json"@, "doc.body.17.value.content"@),
        ("docs/web/html/element/input/hidden/index.json"@, "doc.body.9.value.content"@),
        ("docs/web/html/element/input/image/index.json"@, "doc.body.23.value.content"@),
        ("docs/web/html/element/input/month/index.json"@, "doc.body.20.value.content"@),
        ("docs/web/html/element/input/number/index.json"@, "doc.body.22.value.content"@),
        ("docs/web/html/element/input/password/index.json"@, "doc.body.20.value.content"@),
        ("docs/web/html/element/input/radio/index.json"@, "doc.body.11.value.content"@),
        ("docs/web/html/element/input/range/index.json"@, "doc.body.18.value.content"@),
        ("docs/web/html/element/input/search/index.json"@, "doc.body.27.value.content"@),
        ("docs/web/html/element/input/tel/index.json"@, "doc.body.21.value.content"@),
        ("docs/web/html/element/input/text/index.json"@, "doc.body.22.value.content"@),
        ("docs/web/html/element/input/time/index.json"@, "doc.body.22.value.content"@),
        ("docs/web/html/element/input/url/index.json"@, "doc.body.22.value.content"@),
        ("docs/web/html/element/input/week/index.json"@, "doc.body.17.value.content"@),
        ("docs/web/html/element/link/index.json"@, "doc.body.2.value.content"@),
        ("docs/web/html/element/script/index.json"@, "doc.body.1.value.content"@),
        ("docs/web/html/element/input/checkbox/index.json"@, "doc.body.14.value.content"@),
    ]
}

fn push_part_7(list: &mut Vec<AllowEntry>)
    ensures
        entries_view(final(list)@) == entries_view(old(list)@) + allowlist_part_7(),
{
    push_entry(list, "docs/web/html/element/input/date/index.json", "doc.body.16.value.content");
    push_entry(list, "docs/web/html/element/input/datetime-local/index.json", "doc.body.14.value.content");
    push_entry(list, "docs/web/html/element/input/email/index.json", "doc.body.22.value.content");
    push_entry(list, "docs/web/html/element/input/file/index.json", "doc.body.17.value.content");
    push_entry(list, "docs/web/html/element/input/hidden/index.json", "doc.body.9.value.content");
    push_entry(list, "docs/web/html/element/input/image/index.json", "doc.body.23.value.content");
    push_entry(list, "docs/web/html/element/input/month/index.json", "doc.body.20.value.content");
    push_entry(list, "docs/web/html/element/input/number/index.json", "doc.body.22.value.content");
    push_entry(list, "docs/web/html/element/input/password/index.json", "doc.body.20.value.content");
    push_entry(list, "docs/web/html/element/input/radio/index.json", "doc.body.11.value.content");
    push_entry(list, "docs/web/html/element/input/range/index.json", "doc.body.18.value.content");
    push_entry(list, "docs/web/html/element/input/search/index.json", "doc.body.27.value.content");
    push_entry(list, "docs/web/html/element/input/tel/index.json", "doc.body.21.value.content");
    push_entry(list, "docs/web/html/element/input/text/index.json", "doc.body.22.value.content");
    push_entry(list, "docs/web/html/element/input/time/index.json", "doc.body.22.value.content");
    push_entry(list, "docs/web/html/element/input/url/index.json", "doc.body.22.value.content");
    push_entry(list, "docs/web/html/element/input/week/index.json", "doc.body.17.value.content");
    push_entry(list, "docs/web/html/element/link/index.json", "doc.body.2.value.content");
    push_entry(list, "docs/web/html/element/script/index.json", "doc.body.1.value.content");
    push_entry(list, "docs/web/html/element/input/checkbox/index.json", "doc.body.14.value.content");
    proof {
        assert(entries_view(list@) =~= entries_view(old(list)@) + allowlist_part_7());
    }
}

/// Part 8 of the allow-list.
pub open spec fn allowlist_part_8() -> Seq<(Seq<char>, Seq<char>)> {
    seq![
        ("docs/web/html/element/input/reset/index.json"@, "doc.body.11.value.content"@),
        ("docs/web/html/element/input/submit/index.json"@, "doc.body.16.value.content"@),
        ("docs/web/css/-webkit-mask-position-x/index.json"@, "doc.body.9.value.content"@),
        ("docs/web/css/-webkit-mask-position-y/index.json"@, "doc.body.9.value.content"@),
        ("docs/web/css/-webkit-mask-repeat-x/index.json"@, "doc.body.10.value.content"@),
        ("docs/web/css/-webkit-mask-repeat-y/index.json"@, "doc.body.10.value.content"@),
        ("docs/web/media/formats/video_concepts/index.json"@, "doc.body.3.value.content"@),
        ("docs/web/svg/tutorial/introduction/index.json"@, "doc.body.0.value.content"@),
        ("docs/web/css/css_flexible_box_layout/basic_concepts_of_flexbox/index.json"@, "doc.body.2.value.content"@),
        ("docs/web/css/css_flexible_box_layout/basic_concepts_of_flexbox/index.json"@, "doc.body.3.value.content"@),
        ("docs/web/manifest/index.json"@, "doc.body.1.value.content"@),
        ("docs/web/manifest/orientation/index.json"@, "doc.body.6.value.content"@),
        ("docs/web/css/-moz-orient/index.json"@, "doc.body.3.value.content"@),
        ("docs/web/css/css_namespaces/index.json"@, "doc.body.0.value.content"@),
        ("docs/web/css/shape-outside/index.json"@, "doc.body.4.value.content"@),
        ("docs/web/css/stroke-dasharray/index.json"@, "doc.body.3.value.content"@),
        ("docs/web/css/stroke-dashoffset/index.json"@, "doc.body.3.value.content"@),
        ("docs/web/css/stroke-width/index.json"@, "doc.body.3.value.content"@),
        ("docs/web/css/text-anchor/index.json"@, "doc.body.3.value.content"@),
        ("docs/web/css/text-transform/index.json"@, "doc.body.15.value.content"@),
    ]
}

fn push_part_8(list: &mut Vec<AllowEntry>)
    ensures
        entries_view(final(list)@) == entries_view(old(list)@) + allowlist_part_8(),
{
    push_entry(list, "docs/web/html/element/input/reset/index.json", "doc.body.11.value.content");
    push_entry(list, "docs/web/html/element/input/submit/index.json", "doc.body.16.value.content");
    push_entry(list, "docs/web/css/-webkit-mask-position-x/index.json", "doc.body.9.value.content");
    push_entry(list, "docs/web/css/-webkit-mask-position-y/index.json", "doc.body.9.value.content");
    push_entry(list, "docs/web/css/-webkit-mask-repeat-x/index.json", "doc.body.10.value.content");
    push_entry(list, "docs/web/css/-webkit-mask-repeat-y/index.json", "doc.body.10.value.content");
    push_entry(list, "docs/web/media/formats/video_concepts/index.json", "doc.body.3.value.content");
    push_entry(list, "docs/web/svg/tutorial/introduction/index.json", "doc.body.0.value.content");
    push_entry(list, "docs/web/css/css_flexible_box_layout/basic_concepts_of_flexbox/index.json", "doc.body.2.value.content");
    push_entry(list, "docs/web/css/css_flexible_box_layout/basic_concepts_of_flexbox/index.json", "doc.body.3.value.content");
    push_entry(list, "docs/web/manifest/index.json", "doc.body.1.value.content");
    push_entry(list, "docs/web/manifest/orientation/index.json", "doc.body.6.value.content");
    push_entry(list, "docs/web/css/-moz-orient/index.json", "doc.body.3.value.content");
    push_entry(list, "docs/web/css/css_namespaces/index.json", "doc.body.0.value.content");
    push_entry(list, "docs/web/css/shape-outside/index.json", "doc.body.4.value.content");
    push_entry(list, "docs/web/css/stroke-dasharray/index.json", "doc.body.3.value.content");
    push_entry(list, "docs/web/css/stroke-dashoffset/index.json", "doc.body.3.value.content");
    push_entry(list, "docs/web/css/stroke-width/index.json", "doc.body.3.value.content");
    push_entry(list, "docs/web/css/text-anchor/index.json", "doc.body.3.value.content");
    push_entry(list, "docs/web/css/text-transform/index.json", "doc.body.15.value.content");
    proof {
        assert(entries_view(list@) =~= entries_view(old(list)@) + allowlist_part_8());
    }
}

/// Part 9 of the allow-list.
pub open spec fn allowlist_part_9() -> Seq<(Seq<char>, Seq<char>)> {
    seq![
        ("docs/web/css/x/index.json"@, "doc.body.3.value.content"@),
        ("docs/web/css/y/index.json"@, "doc.body.3.value.content"@),
        ("docs/web/css/stop-opacity/index.json"@, "doc.body.4.value.content"@),
        ("docs/web/svg/attribute/end/index.json"@, "doc.body.1.value.content"@),
        ("docs/web/html/element/track/index.json"@, "doc.body.5.value.content"@),
        ("docs/web/html/global_attributes/itemscope/index.json"@, "doc.body.3.value.content"@),
        ("docs/web/svg/attribute/index.json"@, "doc.body.30.value.content"@),
        ("docs/web/svg/attribute/index.json"@, "doc.body.31.value.content"@),
        ("docs/web/svg/element/animatemotion/index.json"@, "doc.body.4.value.content"@),
        ("docs/web/svg/element/font-face-format/index.json"@, "doc.body.2.value.content"@),
        ("docs/web/svg/element/index.json"@, "doc.body.18.value.content"@),
        ("docs/web/svg/element/index.json"@, "doc.body.19.value.content"@),
        ("docs/web/svg/element/index.json"@, "doc.body.20.value.content"@),
        ("docs/web/svg/element/index.json"@, "doc.body.21.value.content"@),
        ("docs/web/svg/element/index.json"@, "doc.body.22.value.content"@),
        ("docs/web/svg/element/index.json"@, "doc.body.23.value.content"@),
        ("docs/web/svg/element/index.json"@, "doc.body.24.value.content"@),
        ("docs/web/svg/element/index.json"@, "doc.body.25.value.content"@),
        ("docs/web/svg/element/index.json"@, "doc.body.27.value.content"@),
        ("docs/web/svg/element/index.json"@, "doc.body.28.value.content"@),
    ]
}

fn push_part_9(list: &mut Vec<AllowEntry>)
    ensures
        entries_view(final(list)@) == entries_view(old(list)@) + allowlist_part_9(),
{
    push_entry(list, "docs/web/css/x/index.json", "doc.body.3.value.content");
    push_entry(list, "docs/web/css/y/index.json", "doc.body.3.value.content");
    push_entry(list, "docs/web/css/stop-opacity/index.json", "doc.body.4.value.content");
    push_entry(list, "docs/web/svg/attribute/end/index.json", "doc.body.1.value.content");
    push_entry(list, "docs/web/html/element/track/index.json", "doc.body.5.value.content");
    push_entry(list, "docs/web/html/global_attributes/itemscope/index.json", "doc.body.3.value.content");
    push_entry(list, "docs/web/svg/attribute/index.json", "doc.body.30.value.content");
    push_entry(list, "docs/web/svg/attribute/index.json", "doc.body.31.value.content");
    push_entry(list, "docs/web/svg/element/animatemotion/index.json", "doc.body.4.value.content");
    push_entry(list, "docs/web/svg/element/font-face-format/index.json", "doc.body.2.value.content");
    push_entry(list, "docs/web/svg/element/index.json", "doc.body.18.value.content");
    push_entry(list, "docs/web/svg/element/index.json", "doc.body.19.value.content");
    push_entry(list, "docs/web/svg/element/index.json", "doc.body.20.value.content");
    push_entry(list, "docs/web/svg/element/index.json", "doc.body.21.value.content");
    push_entry(list, "docs/web/svg/element/index.json", "doc.body.22.value.content");
    push_entry(list, "docs/web/svg/element/index.json", "doc.body.23.value.content");
    push_entry(list, "docs/web/svg/element/index.json", "doc.body.24.value.content");
    push_entry(list, "docs/web/svg/element/index.json", "doc.body.25.value.content");
    push_entry(list, "docs/web/svg/element/index.json", "doc.body.27.value.content");
    push_entry(list, "docs/web/svg/element/index.json", "doc.body.28.value.content");
    proof {
        assert(entries_view(list@) =~= entries_view(old(list)@) + allowlist_part_9());
    }
}

/// Part 10 of the allow-list.
pub open spec fn allowlist_part_10() -> Seq<(Seq<char>, Seq<char>)> {
    seq![
        ("docs/web/svg/element/index.json"@, "doc.body.29.value.content"@),
        ("docs/web/svg/element/index.json"@, "doc.body.30.value.content"@),
        ("docs/web/svg/element/index.json"@, "doc.body.31.value.content"@),
        ("docs/web/svg/element/index.json"@, "doc.body.32.value.content"@),
        ("docs/web/svg/element/index.json"@, "doc.body.33.value.content"@),
        ("docs/web/svg/element/index.json"@, "doc.body.34.value.content"@),
        ("docs/web/svg/element/index.json"@, "doc.body.35.value.content"@),
        ("docs/web/svg/element/index.json"@, "doc.body.38.value.content"@),
        ("docs/web/svg/element/index.json"@, "doc.body.39.value.content"@),
        ("docs/web/css/@font-face/font-stretch/index.json"@, "doc.body.7.value.content"@),
        ("docs/web/css/@starting-style/index.json"@, "doc.body.4.value.content"@),
        ("docs/web/css/css_multicol_layout/index.json"@, "doc.body.0.value.content"@),
        ("docs/web/css/font-variation-settings/index.json"@, "doc.body.5.value.content"@),
        ("docs/web/css/-moz-image-region/index.json"@, "doc.body.3.value.content"@),
        ("docs/web/css/@import/index.json"@, "doc.body.3.value.content"@),
        ("docs/web/css/@supports/index.json"@, "doc.body.8.value.content"@),
        ("docs/web/css/attr/index.json"@, "doc.body.4.value.content"@),
        ("docs/web/css/calc-size/index.json"@, "doc.body.8.value.content"@),
        ("docs/web/css/calc-sum/index.json"@, "doc.body.2.value.content"@),
        ("docs/web/css/content/index.json"@, "doc.body.5.value.content"@),
    ]
}

fn push_part_10(list: &mut Vec<AllowEntry>)
    ensures
        entries_view(final(list)@) == entries_view(old(list)@) + allowlist_part_10(),
{
    push_entry(list, "docs/web/svg/element/index.json", "doc.body.29.value.content");
    push_entry(list, "docs/web/svg/element/index.json", "doc.body.30.value.content");
    push_entry(list, "docs/web/svg/element/index.json", "doc.body.31.value.content");
    push_entry(list, "docs/web/svg/element/index.json", "doc.body.32.value.content");
    push_entry(list, "docs/web/svg/element/index.json", "doc.body.33.value.content");
    push_entry(list, "docs/web/svg/element/index.json", "doc.body.34.value.content");
    push_entry(list, "docs/web/svg/element/index.json", "doc.body.35.value.content");
    push_entry(list, "docs/web/svg/element/index.json", "doc.body.38.value.content");
    push_entry(list, "docs/web/svg/element/index.json", "doc.body.39.value.content");
    push_entry(list, "docs/web/css/@font-face/font-stretch/index.json", "doc.body.7.value.content");
    push_entry(list, "docs/web/css/@starting-style/index.json", "doc.body.4.value.content");
    push_entry(list, "docs/web/css/css_multicol_layout/index.json", "doc.body.0.value.content");
    push_entry(list, "docs/web/css/font-variation-settings/index.json", "doc.body.5.value.content");
    push_entry(list, "docs/web/css/-moz-image-region/index.json", "doc.body.3.value.content");
    push_entry(list, "docs/web/css/@import/index.json", "doc.body.3.value.content");
    push_entry(list, "docs/web/css/@supports/index.json", "doc.body.8.value.content");
    push_entry(list, "docs/web/css/attr/index.json", "doc.body.4.value.content");
    push_entry(list, "docs/web/css/calc-size/index.json", "doc.body.8.value.content");
    push_entry(list, "docs/web/css/calc-sum/index.json", "doc.body.2.value.content");
    push_entry(list, "docs/web/css/content/index.json", "doc.body.5.value.content");
    proof {
        assert(entries_view(list@) =~= entries_view(old(list)@) + allowlist_part_10());
    }
}

/// Part 11 of the allow-list.
pub open spec fn allowlist_part_11() -> Seq<(Seq<char>, Seq<char>)> {
    seq![
        ("docs/web/css/stop-color/index.json"@, "doc.body.3.value.content"@),
        ("docs/web/css/stop-color/index.json"@, "doc.body.4.value.content"@),
        ("docs/web/css/text-decoration-thickness/index.json"@, "doc.body.10.type"@),
        ("docs/web/css/text-decoration-thickness/index.json"@, "doc.body.10.value.content"@),
        ("docs/web/css/text-decoration-thickness/index.json"@, "doc.body.10.value.id"@),
        ("docs/web/css/text-decoration-thickness/index.json"@, "doc.body.10.value.query"@),
        ("docs/web/css/text-decoration-thickness/index.json"@, "doc.body.10.value.title"@),
        ("docs/web/css/text-decoration-thickness/index.json"@, "doc.body.11"@),
        ("docs/web/css/text-decoration-thickness/index.json"@, "doc.body.8.value.content"@),
        ("docs/web/css/text-decoration-thickness/index.json"@, "doc.body.9.type"@),
        ("docs/web/css/text-decoration-thickness/index.json"@, "doc.body.9.value.content"@),
        ("docs/web/css/text-decoration-thickness/index.json"@, "doc.body.9.value.id"@),
        ("docs/web/css/text-decoration-thickness/index.json"@, "doc.body.9.value.query"@),
        ("docs/web/css/text-decoration-thickness/index.json"@, "doc.body.9.value.title"@),
        ("docs/web/css/text-overflow/index.json"@, "doc.body.10.type"@),
        ("docs/web/css/text-overflow/index.json"@, "doc.body.10.value.content"@),
        ("docs/web/css/text-overflow/index.json"@, "doc.body.10.value.id"@),
        ("docs/web/css/text-overflow/index.json"@, "doc.body.10.value.query"@),
        ("docs/web/css/text-overflow/index.json"@, "doc.body.10.value.title"@),
        ("docs/web/css/text-overflow/index.json"@, "doc.body.11.type"@),
    ]
}

fn push_part_11(list: &mut Vec<AllowEntry>)
    ensures
        entries_view(final(list)@) == entries_view(old(list)@) + allowlist_part_11(),
{
    push_entry(list, "docs/web/css/stop-color/index.json", "doc.body.3.value.content");
    push_entry(list, "docs/web/css/stop-color/index.json", "doc.body.4.value.content");
    push_entry(list, "docs/web/css/text-decoration-thickness/index.json", "doc.body.10.type");
    push_entry(list, "docs/web/css/text-decoration-thickness/index.json", "doc.body.10.value.content");
    push_entry(list, "docs/web/css/text-decoration-thickness/index.json", "doc.body.10.value.id");
    push_entry(list, "docs/web/css/text-decoration-thickness/index.json", "doc.body.10.value.query");
    push_entry(list, "docs/web/css/text-decoration-thickness/index.json", "doc.body.10.value.title");
    push_entry(list, "docs/web/css/text-decoration-thickness/index.json", "doc.body.11");
    push_entry(list, "docs/web/css/text-decoration-thickness/index.json", "doc.body.8.value.content");
    push_entry(list, "docs/web/css/text-decoration-thickness/index.json", "doc.body.9.type");
    push_entry(list, "docs/web/css/text-decoration-thickness/index.json", "doc.body.9.value.content");
    push_entry(list, "docs/web/css/text-decoration-thickness/index.json", "doc.body.9.value.id");
    push_entry(list, "docs/web/css/text-decoration-thickness/index.json", "doc.body.9.value.query");
    push_entry(list, "docs/web/css/text-decoration-thickness/index.json", "doc.body.9.value.title");
    push_entry(list, "docs/web/css/text-overflow/index.json", "doc.body.10.type");
    push_entry(list, "docs/web/css/text-overflow/index.json", "doc.body.10.value.content");
    push_entry(list, "docs/web/css/text-overflow/index.json", "doc.body.10.value.id");
    push_entry(list, "docs/web/css/text-overflow/index.json", "doc.body.10.value.query");
    push_entry(list, "docs/web/css/text-overflow/index.json", "doc.body.10.value.title");
    push_entry(list, "docs/web/css/text-overflow/index.json", "doc.body.11.type");
    proof {
        assert(entries_view(list@) =~= entries_view(old(list)@) + allowlist_part_11());
    }
}

/// Part 12 of the allow-list.
pub open spec fn allowlist_part_12() -> Seq<(Seq<char>, Seq<char>)> {
    seq![
        ("docs/web/css/text-overflow/index.json"@, "doc.body.11.value.content"@),
        ("docs/web/css/text-overflow/index.json"@, "doc.body.11.value.id"@),
        ("docs/web/css/text-overflow/index.json"@, "doc.body.11.value.query"@),
        ("docs/web/css/text-overflow/index.json"@, "doc.body.11.value.title"@),
        ("docs/web/css/text-overflow/index.json"@, "doc.body.12"@),
        ("docs/web/css/text-overflow/index.json"@, "doc.body.9.value.content"@),
        ("docs/web/css/outline-color/index.json"@, "doc.body.7.value.content"@),
        ("docs/web/css/outline/index.json"@, "doc.body.8.value.content"@),
    ]
}

fn push_part_12(list: &mut Vec<AllowEntry>)
    ensures
        entries_view(final(list)@) == entries_view(old(list)@) + allowlist_part_12(),
{
    push_entry(list, "docs/web/css/text-overflow/index.json", "doc.body.11.value.content");
    push_entry(list, "docs/web/css/text-overflow/index.json", "doc.body.11.value.id");
    push_entry(list, "docs/web/css/text-overflow/index.json", "doc.body.11.value.query");
    push_entry(list, "docs/web/css/text-overflow/index.json", "doc.body.11.value.title");
    push_entry(list, "docs/web/css/text-overflow/index.json", "doc.body.12");
    push_entry(list, "docs/web/css/text-overflow/index.json", "doc.body.9.value.content");
    push_entry(list, "docs/web/css/outline-color/index.json", "doc.body.7.value.content");
    push_entry(list, "docs/web/css/outline/index.json", "doc.body.8.value.content");
    proof {
        assert(entries_view(list@) =~= entries_view(old(list)@) + allowlist_part_12());
    }
}

/// The whole allow-list, in the order in which it is kept.
pub open spec fn standard_allowlist() -> Seq<(Seq<char>, Seq<char>)> {
    allowlist_part_1()
        + allowlist_part_2()
        + allowlist_part_3()
        + allowlist_part_4()
        + allowlist_part_5()
        + allowlist_part_6()
        + allowlist_part_7()
        + allowlist_part_8()
        + allowlist_part_9()
        + allowlist_part_10()
        + allowlist_part_11()
        + allowlist_part_12()
}

/// Appends the whole allow-list to `list`.
pub fn push_standard_allowlist(list: &mut Vec<AllowEntry>)
    ensures
        entries_view(final(list)@) == entries_view(old(list)@) + standard_allowlist(),
{
    push_part_1(list);
    push_part_2(list);
    push_part_3(list);
    push_part_4(list);
    push_part_5(list);
    push_part_6(list);
    push_part_7(list);
    push_part_8(list);
    push_part_9(list);
    push_part_10(list);
    push_part_11(list);
    push_part_12(list);
    proof {
        assert(entries_view(list@) =~= entries_view(old(list)@) + standard_allowlist());
    }
}

} // verus!
