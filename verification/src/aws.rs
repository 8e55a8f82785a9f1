//! Instance records as the dashboard sees them: plain data, with the display
//! name and the other attributes read out of it.

use vstd::prelude::*;

verus! {

/// A key/value label on an instance. Either part may be missing.
#[derive(Debug)]
pub struct Tag {
    pub key: Option<String>,
    pub value: Option<String>,
}

/// The mathematical content of a [`Tag`].
pub struct TagView {
    pub key: Option<Seq<char>>,
    pub value: Option<Seq<char>>,
}

impl DeepView for Tag {
    type V = TagView;

    open spec fn deep_view(&self) -> TagView {
        TagView { key: self.key.deep_view(), value: self.value.deep_view() }
    }
}

/// The attributes of one instance as the provider reports them. Every
/// attribute may be missing.
#[derive(Debug)]
pub struct Instance {
    pub tags: Option<Vec<Tag>>,
    pub instance_id: Option<String>,
    pub public_ip_address: Option<String>,
    pub private_ip_address: Option<String>,
    pub image_id: Option<String>,
    pub instance_type: Option<String>,
    pub launch_time: Option<String>,
    pub vpc_id: Option<String>,
    /// The name of each security group, where it has one.
    pub security_groups: Option<Vec<Option<String>>>,
}

/// The mathematical content of an [`Instance`].
pub struct InstanceView {
    pub tags: Option<Seq<TagView>>,
    pub instance_id: Option<Seq<char>>,
    pub public_ip_address: Option<Seq<char>>,
    pub private_ip_address: Option<Seq<char>>,
    pub image_id: Option<Seq<char>>,
    pub instance_type: Option<Seq<char>>,
    pub launch_time: Option<Seq<char>>,
    pub vpc_id: Option<Seq<char>>,
    pub security_groups: Option<Seq<Option<Seq<char>>>>,
}

impl DeepView for Instance {
    type V = InstanceView;

    open spec fn deep_view(&self) -> InstanceView {
        InstanceView {
            tags: self.tags.deep_view(),
            instance_id: self.instance_id.deep_view(),
            public_ip_address: self.public_ip_address.deep_view(),
            private_ip_address: self.private_ip_address.deep_view(),
            image_id: self.image_id.deep_view(),
            instance_type: self.instance_type.deep_view(),
            launch_time: self.launch_time.deep_view(),
            vpc_id: self.vpc_id.deep_view(),
            security_groups: self.security_groups.deep_view(),
        }
    }
}

/// An instance together with the region it runs in.
#[derive(Debug)]
pub struct InstanceInfo {
    region: String,
    raw_instance_data: Instance,
}

/// The mathematical content of an [`InstanceInfo`].
pub struct InstanceInfoView {
    pub region: Seq<char>,
    pub raw: InstanceView,
}

impl DeepView for InstanceInfo {
    type V = InstanceInfoView;

    closed spec fn deep_view(&self) -> InstanceInfoView {
        InstanceInfoView {
            region: self.region@,
            raw: self.raw_instance_data.deep_view(),
        }
    }
}

/// The text of an optional attribute; a missing one reads as empty.
pub open spec fn text_or_empty(attribute: Option<Seq<char>>) -> Seq<char> {
    match attribute {
        Some(text) => text,
        None => Seq::empty(),
    }
}

/// The value of the last tag with the given key, or the empty text if no tag
/// has it. Later tags override earlier ones.
pub open spec fn tag_value(tags: Seq<TagView>, key: Seq<char>) -> Seq<char>
    decreases tags.len(),
{
    if tags.len() == 0 {
        Seq::empty()
    } else if text_or_empty(tags.last().key) == key {
        text_or_empty(tags.last().value)
    } else {
        tag_value(tags.drop_last(), key)
    }
}

/// Whether some tag has the given key.
pub open spec fn has_tag(tags: Seq<TagView>, key: Seq<char>) -> bool {
    exists|i: int| 0 <= i < tags.len() && text_or_empty(#[trigger] tags[i].key) == key
}

/// The tags of an instance; none where the attribute is missing.
pub open spec fn tags_of(instance: InstanceView) -> Seq<TagView> {
    match instance.tags {
        Some(tags) => tags,
        None => Seq::empty(),
    }
}

/// The keys of the tags, each once, in the order in which they first occur.
pub open spec fn tag_keys(tags: Seq<TagView>) -> Seq<Seq<char>>
    decreases tags.len(),
{
    if tags.len() == 0 {
        Seq::empty()
    } else {
        let before = tag_keys(tags.drop_last());
        let key = text_or_empty(tags.last().key);
        if before.contains(key) {
            before
        } else {
            before.push(key)
        }
    }
}

/// The tags as pairs of key and value: one pair for each key, with the value
/// of the last tag that has the key.
pub open spec fn tag_pairs(tags: Seq<TagView>) -> Seq<(Seq<char>, Seq<char>)> {
    Seq::new(tag_keys(tags).len(), |i: int| (tag_keys(tags)[i], tag_value(tags, tag_keys(tags)[i])))
}

/// The names of the security groups; a group without a name has the empty
/// name, and an instance without the attribute has no groups.
pub open spec fn group_names(groups: Option<Seq<Option<Seq<char>>>>) -> Seq<Seq<char>> {
    match groups {
        Some(names) => Seq::new(names.len(), |i: int| text_or_empty(names[i])),
        None => Seq::empty(),
    }
}

/// The instances of all reservations, in order, each in the given region.
pub open spec fn instances_in(region: Seq<char>, reservations: Seq<Seq<InstanceView>>) -> Seq<
    InstanceInfoView,
>
    decreases reservations.len(),
{
    if reservations.len() == 0 {
        Seq::empty()
    } else {
        instances_in(region, reservations.drop_last()) + Seq::new(
            reservations.last().len(),
            |i: int| InstanceInfoView { region, raw: reservations.last()[i] },
        )
    }
}

impl InstanceInfoView {
    /// The display name: the value of the tag `Name`.
    pub open spec fn name(self) -> Seq<char> {
        tag_value(tags_of(self.raw), "Name"@)
    }
}

/// A key that does not occur among the tags has no value, and every listed
/// key occurs among them.
pub proof fn lemma_tag_keys(tags: Seq<TagView>, key: Seq<char>)
    ensures
        tag_keys(tags).contains(key) <==> has_tag(tags, key),
        !has_tag(tags, key) ==> tag_value(tags, key) == Seq::<char>::empty(),
        tag_keys(tags).no_duplicates(),
    decreases tags.len(),
{
    if tags.len() > 0 {
        let head = tags.drop_last();
        let last_key = text_or_empty(tags.last().key);
        lemma_tag_keys(head, key);
        lemma_tag_keys(head, last_key);
        if has_tag(head, key) {
            let i = choose|i: int| 0 <= i < head.len() && text_or_empty(#[trigger] head[i].key) == key;
            assert(tags[i] == head[i]);
        }
        if has_tag(tags, key) && last_key != key {
            let i = choose|i: int| 0 <= i < tags.len() && text_or_empty(#[trigger] tags[i].key) == key;
            assert(head[i] == tags[i]);
        }
        if last_key == key {
            assert(text_or_empty(tags[tags.len() - 1].key) == key);
        }
        let before = tag_keys(head);
        if !before.contains(last_key) {
            assert(before.push(last_key).last() == last_key);
            if key != last_key && before.push(last_key).contains(key) {
                let j = choose|j: int|
                    0 <= j < before.push(last_key).len() && before.push(last_key)[j] == key;
                assert(before[j] == key);
            }
            if before.contains(key) {
                let j = choose|j: int| 0 <= j < before.len() && before[j] == key;
                assert(before.push(last_key)[j] == key);
            }
        }
    }
}

/// A copy of an optional attribute.
fn clone_text(attribute: &Option<String>) -> (r: Option<String>)
    ensures
        r.deep_view() == attribute.deep_view(),
{
    match attribute {
        Some(text) => Some(text.clone()),
        None => None,
    }
}

/// The text of an optional attribute, empty where it is missing.
fn owned_text(attribute: &Option<String>) -> (r: String)
    ensures
        r@ == text_or_empty(attribute.deep_view()),
{
    match attribute {
        Some(text) => text.clone(),
        None => String::new(),
    }
}

impl Clone for Tag {
    fn clone(&self) -> (r: Self)
        ensures
            r.deep_view() == self.deep_view(),
    {
        Tag { key: clone_text(&self.key), value: clone_text(&self.value) }
    }
}

/// A copy of the tags.
fn clone_tags(tags: &Option<Vec<Tag>>) -> (r: Option<Vec<Tag>>)
    ensures
        r.deep_view() == tags.deep_view(),
{
    match tags {
        Some(list) => {
            let mut out: Vec<Tag> = Vec::new();
            let mut i: usize = 0;
            while i < list.len()
                invariant
                    i <= list.len(),
                    out.deep_view() == list.deep_view().take(i as int),
                decreases list.len() - i,
            {
                let ghost before = out.deep_view();
                out.push(list[i].clone());
                assert(out.deep_view() =~= before.push(list[i as int].deep_view()));
                i += 1;
            }
            Some(out)
        },
        None => None,
    }
}

/// A copy of the group names.
fn clone_names(names: &Option<Vec<Option<String>>>) -> (r: Option<Vec<Option<String>>>)
    ensures
        r.deep_view() == names.deep_view(),
{
    match names {
        Some(list) => {
            let mut out: Vec<Option<String>> = Vec::new();
            let mut i: usize = 0;
            while i < list.len()
                invariant
                    i <= list.len(),
                    out.deep_view() == list.deep_view().take(i as int),
                decreases list.len() - i,
            {
                let ghost before = out.deep_view();
                out.push(clone_text(&list[i]));
                assert(out.deep_view() =~= before.push(list[i as int].deep_view()));
                i += 1;
            }
            Some(out)
        },
        None => None,
    }
}

impl Default for Instance {
    /// An instance of which nothing is known.
    fn default() -> (r: Self)
        ensures
            r.deep_view() == (InstanceView {
                tags: None,
                instance_id: None,
                public_ip_address: None,
                private_ip_address: None,
                image_id: None,
                instance_type: None,
                launch_time: None,
                vpc_id: None,
                security_groups: None,
            }),
    {
        Instance {
            tags: None,
            instance_id: None,
            public_ip_address: None,
            private_ip_address: None,
            image_id: None,
            instance_type: None,
            launch_time: None,
            vpc_id: None,
            security_groups: None,
        }
    }
}

impl Clone for Instance {
    fn clone(&self) -> (r: Self)
        ensures
            r.deep_view() == self.deep_view(),
    {
        Instance {
            tags: clone_tags(&self.tags),
            instance_id: clone_text(&self.instance_id),
            public_ip_address: clone_text(&self.public_ip_address),
            private_ip_address: clone_text(&self.private_ip_address),
            image_id: clone_text(&self.image_id),
            instance_type: clone_text(&self.instance_type),
            launch_time: clone_text(&self.launch_time),
            vpc_id: clone_text(&self.vpc_id),
            security_groups: clone_names(&self.security_groups),
        }
    }
}

impl Clone for InstanceInfo {
    fn clone(&self) -> (r: Self)
        ensures
            r.deep_view() == self.deep_view(),
    {
        InstanceInfo {
            region: self.region.clone(),
            raw_instance_data: self.raw_instance_data.clone(),
        }
    }
}

impl InstanceInfo {
    /// An instance of the given region.
    pub fn new(region: String, raw_instance_data: Instance) -> (r: Self)
        ensures
            r.deep_view() == (InstanceInfoView {
                region: region@,
                raw: raw_instance_data.deep_view(),
            }),
    {
        InstanceInfo { region, raw_instance_data }
    }

    /// The display name: the value of the tag `Name`, empty without one.
    pub fn get_name(&self) -> (r: String)
        ensures
            r@ == self.deep_view().name(),
    {
        let mut name = String::new();
        match &self.raw_instance_data.tags {
            Some(tags) => {
                let mut i: usize = 0;
                while i < tags.len()
                    invariant
                        i <= tags.len(),
                        name@ == tag_value(tags.deep_view().take(i as int), "Name"@),
                    decreases tags.len() - i,
                {
                    let ghost upto = tags.deep_view().take(i + 1);
                    proof {
                        assert(upto.drop_last() =~= tags.deep_view().take(i as int));
                    }
                    let key = owned_text(&tags[i].key);
                    if key == String::from_str("Name") {
                        name = owned_text(&tags[i].value);
                    }
                    i += 1;
                }
                assert(tags.deep_view().take(tags.len() as int) =~= tags.deep_view());
            },
            None => {},
        }
        name
    }

    /// The instance id, empty if unknown.
    pub fn get_instance_id(&self) -> (r: String)
        ensures
            r@ == text_or_empty(self.deep_view().raw.instance_id),
    {
        owned_text(&self.raw_instance_data.instance_id)
    }

    /// The public address, empty if there is none.
    pub fn get_public_ip(&self) -> (r: String)
        ensures
            r@ == text_or_empty(self.deep_view().raw.public_ip_address),
    {
        owned_text(&self.raw_instance_data.public_ip_address)
    }

    /// The private address, empty if there is none.
    pub fn get_private_ip(&self) -> (r: String)
        ensures
            r@ == text_or_empty(self.deep_view().raw.private_ip_address),
    {
        owned_text(&self.raw_instance_data.private_ip_address)
    }

    /// The region that the instance runs in.
    pub fn get_region(&self) -> (r: String)
        ensures
            r@ == self.deep_view().region,
    {
        self.region.clone()
    }

    /// The id of the machine image, empty if unknown.
    pub fn get_image_id(&self) -> (r: String)
        ensures
            r@ == text_or_empty(self.deep_view().raw.image_id),
    {
        owned_text(&self.raw_instance_data.image_id)
    }

    /// All attributes as the provider reported them.
    pub fn get_raw_instance_data(&self) -> (r: Instance)
        ensures
            r.deep_view() == self.deep_view().raw,
    {
        self.raw_instance_data.clone()
    }

    /// The instance type, empty if unknown.
    pub fn get_instance_type(&self) -> (r: String)
        ensures
            r@ == text_or_empty(self.deep_view().raw.instance_type),
    {
        owned_text(&self.raw_instance_data.instance_type)
    }

    /// The time of the launch, empty if unknown.
    pub fn get_launch_time(&self) -> (r: String)
        ensures
            r@ == text_or_empty(self.deep_view().raw.launch_time),
    {
        owned_text(&self.raw_instance_data.launch_time)
    }

    /// The id of the virtual network, empty if there is none.
    pub fn get_vpc_id(&self) -> (r: String)
        ensures
            r@ == text_or_empty(self.deep_view().raw.vpc_id),
    {
        owned_text(&self.raw_instance_data.vpc_id)
    }

    /// The tags as pairs of key and value, one pair for each key.
    pub fn get_tags(&self) -> (r: Vec<(String, String)>)
        ensures
            r.deep_view() == tag_pairs(tags_of(self.deep_view().raw)),
    {
        let mut pairs: Vec<(String, String)> = Vec::new();
        match &self.raw_instance_data.tags {
            Some(tags) => {
                let mut i: usize = 0;
                while i < tags.len()
                    invariant
                        i <= tags.len(),
                        pairs.deep_view() == tag_pairs(tags.deep_view().take(i as int)),
                    decreases tags.len() - i,
                {
                    let ghost seen = tags.deep_view().take(i as int);
                    let ghost upto = tags.deep_view().take(i + 1);
                    let ghost before = pairs.deep_view();
                    proof {
                        assert(upto.drop_last() =~= seen);
                        assert(upto.last() == tags[i as int].deep_view());
                    }
                    let key = owned_text(&tags[i].key);
                    let value = owned_text(&tags[i].value);
                    let mut at: usize = 0;
                    while at < pairs.len() && pairs[at].0 != key
                        invariant
                            at <= pairs.len(),
                            pairs.deep_view() == before,
                            forall|j: int| 0 <= j < at ==> before[j].0 != key@,
                        decreases pairs.len() - at,
                    {
                        at += 1;
                    }
                    proof {
                        lemma_tag_keys(seen, key@);
                        assert(tag_keys(seen).len() == before.len());
                        assert forall|j: int| 0 <= j < before.len() implies before[j].0
                            == tag_keys(seen)[j] by {}
                    }
                    if at < pairs.len() {
                        let ghost held = pairs@;
                        pairs.set(at, (key, value));
                        proof {
                            assert(tag_keys(seen)[at as int] == key@);
                            assert(tag_keys(upto) == tag_keys(seen));
                            assert forall|j: int| 0 <= j < tag_keys(upto).len() implies pairs.deep_view()[j]
                                == tag_pairs(upto)[j] by {
                                if j != at {
                                    assert(pairs@[j] == held[j]);
                                    assert(pairs.deep_view()[j] == before[j]);
                                    assert(tag_keys(seen)[j] != tag_keys(seen)[at as int]);
                                }
                            }
                        }
                    } else {
                        pairs.push((key, value));
                        proof {
                            assert(!tag_keys(seen).contains(key@)) by {
                                if tag_keys(seen).contains(key@) {
                                    let j = choose|j: int|
                                        0 <= j < tag_keys(seen).len() && tag_keys(seen)[j] == key@;
                                    assert(before[j].0 == key@);
                                }
                            }
                            assert(tag_keys(upto) == tag_keys(seen).push(key@));
                            assert forall|j: int| 0 <= j < tag_keys(upto).len() implies pairs.deep_view()[j]
                                == tag_pairs(upto)[j] by {
                                if j < before.len() {
                                    assert(pairs.deep_view()[j] == before[j]);
                                    assert(tag_keys(seen)[j] != key@);
                                }
                            }
                        }
                    }
                    assert(pairs.deep_view() =~= tag_pairs(upto));
                    i += 1;
                }
                assert(tags.deep_view().take(tags.len() as int) =~= tags.deep_view());
            },
            None => {
                assert(pairs.deep_view() =~= tag_pairs(Seq::empty()));
            },
        }
        pairs
    }

    /// The names of the instance's security groups.
    pub fn get_security_groups(&self) -> (r: Vec<String>)
        ensures
            r.deep_view() == group_names(self.deep_view().raw.security_groups),
    {
        let mut names: Vec<String> = Vec::new();
        match &self.raw_instance_data.security_groups {
            Some(groups) => {
                let ghost all = group_names(Some(groups.deep_view()));
                let mut i: usize = 0;
                while i < groups.len()
                    invariant
                        i <= groups.len(),
                        all == group_names(Some(groups.deep_view())),
                        names.deep_view() == all.take(i as int),
                    decreases groups.len() - i,
                {
                    let ghost before = names.deep_view();
                    let name = owned_text(&groups[i]);
                    names.push(name);
                    assert(names.deep_view() =~= before.push(name@));
                    i += 1;
                }
            },
            None => {
            },
        }
        names
    }
}

/// The instances of the given reservations as instances of `region`.
pub fn collect_instances(region: &String, reservations: &Vec<Vec<Instance>>) -> (r: Vec<
    InstanceInfo,
>)
    ensures
        r.deep_view() == instances_in(region@, reservations.deep_view()),
{
    let mut out: Vec<InstanceInfo> = Vec::new();
    let mut i: usize = 0;
    while i < reservations.len()
        invariant
            i <= reservations.len(),
            out.deep_view() == instances_in(region@, reservations.deep_view().take(i as int)),
        decreases reservations.len() - i,
    {
        let ghost upto = reservations.deep_view().take(i + 1);
        let ghost done = out.deep_view();
        proof {
            assert(upto.drop_last() =~= reservations.deep_view().take(i as int));
        }
        let instances = &reservations[i];
        let ghost these = Seq::new(
            instances.len() as nat,
            |k: int| InstanceInfoView { region: region@, raw: instances.deep_view()[k] },
        );
        let mut j: usize = 0;
        while j < instances.len()
            invariant
                j <= instances.len(),
                these == Seq::new(
                    instances.len() as nat,
                    |k: int| InstanceInfoView { region: region@, raw: instances.deep_view()[k] },
                ),
                out.deep_view() == done + these.take(j as int),
            decreases instances.len() - j,
        {
            let ghost before = out.deep_view();
            let instance = InstanceInfo::new(region.clone(), instances[j].clone());
            out.push(instance);
            assert(out.deep_view() =~= before.push(instance.deep_view()));
            j += 1;
        }
        i += 1;
    }
    assert(reservations.deep_view().take(reservations.len() as int) =~= reservations.deep_view());
    out
}

} // verus!
