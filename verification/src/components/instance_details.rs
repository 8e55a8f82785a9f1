//! The panel that shows the attributes of one instance.

use vstd::prelude::*;
use std::collections::BTreeMap;
use crate::aws::group_names;
use crate::aws::lemma_tag_keys;
use crate::aws::tag_keys;
use crate::aws::tag_pairs;
use crate::aws::tags_of;
use crate::aws::text_or_empty;
use crate::aws::InstanceInfo;
use crate::aws::InstanceInfoView;
use crate::sorting::arranged;
use crate::sorting::goes_before;
use crate::sorting::is_stable_order;
use crate::sorting::lemma_order_distinct;
use crate::sorting::lemma_stable_order_unique;
use crate::sorting::stable_order;
use crate::sorting::SortKey;
use crate::sorting::SortKeyView;
use crate::text::join;
use crate::text::join_with;
use crate::text::lex_lt;

verus! {

/// The text that the pretty `Debug` format `{:#?}` gives for a list of
/// strings.
pub uninterp spec fn pretty_list(items: Seq<Seq<char>>) -> Seq<char>;

/// Formats a list of strings with `{:#?}`.
#[verifier::external_body]
fn format_list(items: &Vec<String>) -> (text: String)
    ensures
        text@ == pretty_list(items.deep_view()),
{
    format!("{:#?}", items)
}

/// The sort keys of pairs that are sorted by their first part.
pub open spec fn pair_keys(pairs: Seq<(Seq<char>, Seq<char>)>) -> Seq<SortKeyView> {
    Seq::new(pairs.len(), |i: int| SortKeyView { rank: 0, text: pairs[i].0 })
}

/// The pairs in the order of their keys, pairs of one key in the order in
/// which they came.
pub open spec fn by_key(pairs: Seq<(Seq<char>, Seq<char>)>) -> Seq<(Seq<char>, Seq<char>)> {
    arranged(pairs, choose|order: Seq<usize>| is_stable_order(pair_keys(pairs), order))
}

/// No two pairs have the same key.
pub open spec fn keys_differ(pairs: Seq<(Seq<char>, Seq<char>)>) -> bool {
    forall|i: int, j: int|
        0 <= i < pairs.len() && 0 <= j < pairs.len() && i != j ==> (#[trigger] pairs[i]).0
            != (#[trigger] pairs[j]).0
}

/// Each key comes before the keys of all pairs behind it.
pub open spec fn keys_ascend(pairs: Seq<(Seq<char>, Seq<char>)>) -> bool {
    forall|i: int, j: int|
        0 <= i < j < pairs.len() ==> lex_lt((#[trigger] pairs[i]).0, (#[trigger] pairs[j]).0)
}

/// The pairs in the order of their keys. Where no two keys are the same,
/// the keys ascend.
pub fn sort_by_key(pairs: &Vec<(String, String)>) -> (sorted: Vec<(String, String)>)
    ensures
        sorted.deep_view() == by_key(pairs.deep_view()),
        keys_differ(pairs.deep_view()) ==> keys_ascend(sorted.deep_view()),
{
    let ghost input = pairs.deep_view();
    let mut keys: Vec<SortKey> = Vec::new();
    let mut i: usize = 0;
    while i < pairs.len()
        invariant
            i <= pairs.len(),
            input == pairs.deep_view(),
            keys.deep_view() == pair_keys(input).take(i as int),
        decreases pairs.len() - i,
    {
        let ghost before = keys.deep_view();
        let key = SortKey { rank: 0, text: pairs[i].0.clone() };
        keys.push(key);
        assert(keys.deep_view() =~= before.push(key.deep_view()));
        assert(keys.deep_view() =~= pair_keys(input).take(i + 1));
        i += 1;
    }
    assert(keys.deep_view() =~= pair_keys(input));
    let order = stable_order(&keys);
    let mut sorted: Vec<(String, String)> = Vec::new();
    let mut j: usize = 0;
    while j < order.len()
        invariant
            j <= order.len(),
            input == pairs.deep_view(),
            is_stable_order(pair_keys(input), order@),
            sorted.deep_view() == arranged(input, order@).take(j as int),
        decreases order.len() - j,
    {
        let ghost before = sorted.deep_view();
        let pair = (pairs[order[j]].0.clone(), pairs[order[j]].1.clone());
        sorted.push(pair);
        assert(sorted.deep_view() =~= before.push(pair.deep_view()));
        assert(sorted.deep_view() =~= arranged(input, order@).take(j + 1));
        j += 1;
    }
    assert(sorted.deep_view() =~= arranged(input, order@));
    proof {
        let chosen = choose|order: Seq<usize>| is_stable_order(pair_keys(input), order);
        lemma_stable_order_unique(pair_keys(input), order@, chosen);
        if keys_differ(input) {
            let out = sorted.deep_view();
            assert forall|a: int, b: int| 0 <= a < b < out.len() implies lex_lt(
                (#[trigger] out[a]).0,
                (#[trigger] out[b]).0,
            ) by {
                lemma_order_distinct(pair_keys(input), order@, a, b);
                assert(goes_before(pair_keys(input), order@[a] as int, order@[b] as int));
                assert(input[order@[a] as int].0 != input[order@[b] as int].0);
            }
        }
    }
    sorted
}

/// The text that the pretty `Debug` format `{:#?}` gives for a map with the
/// given entries, which come in the order of their keys.
pub uninterp spec fn pretty_map(entries: Seq<(Seq<char>, Seq<char>)>) -> Seq<char>;

/// Formats pairs of key and value, whose keys ascend, with `{:#?}` as the
/// map that holds them: a `BTreeMap`, which lists its entries in the order
/// of their keys, as they come here.
#[verifier::external_body]
fn format_map(pairs: &Vec<(String, String)>) -> (text: String)
    requires
        keys_ascend(pairs.deep_view()),
    ensures
        text@ == pretty_map(pairs.deep_view()),
{
    let map: BTreeMap<String, String> = pairs.iter().cloned().collect();
    format!("{:#?}", map)
}

/// One line of the details: a label, a colon and a blank, and the value.
pub open spec fn detail_line(label: Seq<char>, value: Seq<char>) -> Seq<char> {
    label + seq![':', ' '] + value
}

/// The lines of the details of an instance, given the texts that stand for
/// its security groups and its tags.
pub open spec fn detail_lines(instance: InstanceInfoView, groups: Seq<char>, tags: Seq<char>) -> Seq<
    Seq<char>,
> {
    seq![
        detail_line("Name"@, instance.name()),
        detail_line("Instance Id"@, text_or_empty(instance.raw.instance_id)),
        detail_line("Private IP"@, text_or_empty(instance.raw.private_ip_address)),
        detail_line("Public IP"@, text_or_empty(instance.raw.public_ip_address)),
        detail_line("Image Id"@, text_or_empty(instance.raw.image_id)),
        detail_line("instance_type"@, text_or_empty(instance.raw.instance_type)),
        detail_line("launch_time"@, text_or_empty(instance.raw.launch_time)),
        detail_line("vpc_id"@, text_or_empty(instance.raw.vpc_id)),
        detail_line("security_groups"@, groups),
        detail_line("tags"@, tags),
    ]
}

/// The details of an instance as one text, a line for each attribute.
pub open spec fn details_text(instance: InstanceInfoView, groups: Seq<char>, tags: Seq<char>) -> Seq<
    char,
> {
    join_with(detail_lines(instance, groups, tags), '\n')
}

/// One line of the details.
fn line(label: &str, value: String) -> (r: String)
    ensures
        r@ == detail_line(label@, value@),
{
    let mut text = String::from_str(label);
    text.push(':');
    text.push(' ');
    text.append(value.as_str());
    text
}

/// The details of an instance as text, given the texts that stand for its
/// security groups and its tags.
pub fn describe(instance: &InstanceInfo, groups: String, tags: String) -> (text: String)
    ensures
        text@ == details_text(instance.deep_view(), groups@, tags@),
{
    let mut lines: Vec<String> = Vec::new();
    lines.push(line("Name", instance.get_name()));
    lines.push(line("Instance Id", instance.get_instance_id()));
    lines.push(line("Private IP", instance.get_private_ip()));
    lines.push(line("Public IP", instance.get_public_ip()));
    lines.push(line("Image Id", instance.get_image_id()));
    lines.push(line("instance_type", instance.get_instance_type()));
    lines.push(line("launch_time", instance.get_launch_time()));
    lines.push(line("vpc_id", instance.get_vpc_id()));
    lines.push(line("security_groups", groups));
    lines.push(line("tags", tags));
    assert(lines.deep_view() =~= detail_lines(instance.deep_view(), groups@, tags@));
    join(&lines, '\n')
}

/// The instance whose details are shown, once one was chosen.
#[derive(Debug)]
pub struct InstanceDetails {
    instance: Option<InstanceInfo>,
}

impl View for InstanceDetails {
    type V = Option<InstanceInfoView>;

    closed spec fn view(&self) -> Option<InstanceInfoView> {
        self.instance.deep_view()
    }
}

impl Default for InstanceDetails {
    /// A panel that shows no instance.
    fn default() -> (r: Self)
        ensures
            r@ is None,
    {
        InstanceDetails { instance: None }
    }
}

impl InstanceDetails {
    /// Shows another instance.
    pub fn set_instance(&mut self, instance: InstanceInfo)
        ensures
            final(self)@ == Some(instance.deep_view()),
    {
        self.instance = Some(instance);
    }

    /// The text of the panel: the attributes of the instance, one on each
    /// line, or a notice that none is selected. The security groups stand
    /// as a pretty-printed list, the tags as a pretty-printed map in the
    /// order of their keys.
    pub fn get_text(&self) -> (text: String)
        ensures
            text@ == match self@ {
                Some(instance) => details_text(
                    instance,
                    pretty_list(group_names(instance.raw.security_groups)),
                    pretty_map(by_key(tag_pairs(tags_of(instance.raw)))),
                ),
                None => "No instance selected"@,
            },
    {
        match &self.instance {
            Some(instance) => {
                let groups = format_list(&instance.get_security_groups());
                let pairs = instance.get_tags();
                proof {
                    let tags = tags_of(instance.deep_view().raw);
                    lemma_tag_keys(tags, Seq::empty());
                    assert forall|i: int, j: int|
                        0 <= i < pairs.deep_view().len() && 0 <= j < pairs.deep_view().len() && i
                            != j implies (#[trigger] pairs.deep_view()[i]).0
                        != (#[trigger] pairs.deep_view()[j]).0 by {
                        assert(tag_keys(tags)[i] != tag_keys(tags)[j]);
                    }
                }
                let tags = format_map(&sort_by_key(&pairs));
                describe(instance, groups, tags)
            },
            None => String::from_str("No instance selected"),
        }
    }

    /// The instance shown.
    pub fn get_instance(&self) -> (r: Option<InstanceInfo>)
        ensures
            r.deep_view() == self@,
    {
        match &self.instance {
            Some(instance) => Some(instance.clone()),
            None => None,
        }
    }
}

} // verus!
