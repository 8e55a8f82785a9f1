//! The user's settings: which regions are hidden and which are favourites,
//! kept as two comma-separated lists in an ini document.

use vstd::prelude::*;
use configparser::ini::Ini;
use crate::text::contains_string;
use crate::text::is_substring;
use crate::text::join;
use crate::text::join_with;
use crate::text::lemma_split_appended;
use crate::text::lemma_split_joined;
use crate::text::lemma_split_on;
use crate::text::lemma_split_single;
use crate::text::split;
use crate::text::split_on;

verus! {

/// The ini document of the `configparser` crate.
#[verifier::external_type_specification]
#[verifier::external_body]
pub struct ExIni(Ini);

/// Texts by section and key.
pub type IniValues = Map<(Seq<char>, Seq<char>), Seq<char>>;

/// The texts that an `Ini` holds, by section and key. A key that stands
/// without a value has no entry.
pub uninterp spec fn ini_values(ini: Ini) -> Map<(Seq<char>, Seq<char>), Seq<char>>;

/// Whether an `Ini` has the settings that `Ini::new` gives it.
pub uninterp spec fn ini_plain(ini: Ini) -> bool;

/// What `Ini::read` makes of a text, on an `Ini` with the settings of
/// `Ini::new`: the texts held after it, or nothing where it refuses the text.
pub uninterp spec fn ini_parse(text: Seq<char>) -> Option<Map<(Seq<char>, Seq<char>), Seq<char>>>;

/// A name that an `Ini` uses as it stands: ASCII without capital letters.
pub open spec fn is_folded(name: Seq<char>) -> bool {
    forall|i: int|
        0 <= i < name.len() ==> (#[trigger] name[i] as int) < 128 && !('A' as int <= name[i] as int
            <= 'Z' as int)
}

/// The entry of a section and key, if there is one.
pub open spec fn ini_entry(
    values: IniValues,
    section: Seq<char>,
    key: Seq<char>,
) -> Option<Seq<char>> {
    if values.contains_key((section, key)) {
        Some(values[(section, key)])
    } else {
        None
    }
}

/// Calls `Ini::new`: an `Ini` with the default settings that holds nothing.
#[verifier::external_body]
fn ini_new() -> (ini: Ini)
    ensures
        ini_plain(ini),
        ini_values(ini) == IniValues::empty(),
{
    Ini::new()
}

/// Calls `Ini::read`, which parses the text and, if it accepts it, replaces
/// what the `Ini` holds by what the text says; if it refuses the text, the
/// `Ini` stays as it was. The settings are not touched.
#[verifier::external_body]
fn ini_read(ini: &mut Ini, input: String) -> (r: Result<(), String>)
    requires
        ini_plain(*old(ini)),
    ensures
        ini_plain(*final(ini)),
        match r {
            Ok(_) => ini_parse(input@) == Some(ini_values(*final(ini))),
            Err(_) => ini_parse(input@) is None && ini_values(*final(ini)) == ini_values(
                *old(ini),
            ),
        },
{
    match ini.read(input) {
        Ok(_) => Ok(()),
        Err(why) => Err(why),
    }
}

/// Calls `Ini::get`. With the default settings it folds section and key to
/// lower case, which leaves a folded name as it is, and returns the text
/// stored under them, if any.
#[verifier::external_body]
fn ini_get(ini: &Ini, section: &str, key: &str) -> (value: Option<String>)
    requires
        ini_plain(*ini),
        is_folded(section@),
        is_folded(key@),
    ensures
        value.deep_view() == ini_entry(ini_values(*ini), section@, key@),
{
    ini.get(section, key)
}

/// Calls `Ini::set` with a text to store: afterwards that text stands under
/// the section and key, and every other entry is as before.
#[verifier::external_body]
fn ini_set(ini: &mut Ini, section: &str, key: &str, value: String)
    requires
        ini_plain(*old(ini)),
        is_folded(section@),
        is_folded(key@),
    ensures
        ini_plain(*final(ini)),
        ini_values(*final(ini)) == ini_values(*old(ini)).insert((section@, key@), value@),
{
    ini.set(section, key, Some(value));
}

/// An entry as it stands in a written document: the key, an equals sign and
/// the text.
pub open spec fn entry_line(key: Seq<char>, value: Seq<char>) -> Seq<char> {
    key.push('=') + value
}

/// The header of a section as it stands in a written document.
pub open spec fn section_line(section: Seq<char>) -> Seq<char> {
    seq!['['] + section + seq![']']
}

/// Whether `text` shows all of `values`: each entry stands in it as its key,
/// an equals sign and its text, and so does the header of each section that
/// has an entry, but for the section `default`, which has no header.
pub open spec fn shows_entries(values: IniValues, text: Seq<char>) -> bool {
    forall|section: Seq<char>, key: Seq<char>| #[trigger]
        values.contains_key((section, key)) ==> {
            &&& is_substring(entry_line(key, values[(section, key)]), text)
            &&& section != "default"@ ==> is_substring(section_line(section), text)
        }
}

/// Calls `Ini::writes`, which lays the document out as text. With the
/// default settings it writes the keys of the section `default` first and
/// then each other section behind its header in square brackets, every key
/// on a line of its own, followed by an equals sign and its text where it
/// has one. Sections and keys come in no fixed order, so only that is said
/// of the text: it shows every entry.
#[verifier::external_body]
fn ini_writes(ini: &Ini) -> (text: String)
    requires
        ini_plain(*ini),
    ensures
        shows_entries(ini_values(*ini), text@),
{
    ini.writes()
}

/// The regions on offer when none is hidden.
pub open spec fn default_regions() -> Seq<Seq<char>> {
    seq![
        "af-south-1"@,
        "ap-east-1"@,
        "ap-northeast-1"@,
        "ap-northeast-2"@,
        "ap-northeast-3"@,
        "ap-south-1"@,
        "ap-south-2"@,
        "ap-southeast-1"@,
        "ap-southeast-2"@,
        "ap-southeast-3"@,
        "ap-southeast-4"@,
        "ca-central-1"@,
        "ca-west-1"@,
        "eu-central-1"@,
        "eu-central-2"@,
        "eu-north-1"@,
        "eu-south-1"@,
        "eu-south-2"@,
        "eu-west-1"@,
        "eu-west-2"@,
        "eu-west-3"@,
        "il-central-1"@,
        "me-central-1"@,
        "me-south-1"@,
        "sa-east-1"@,
        "us-east-1"@,
        "us-east-2"@,
        "us-west-1"@,
        "us-west-2"@,
    ]
}

/// The entries of `list` that pass `keep`, in their order.
pub open spec fn kept(list: Seq<Seq<char>>, keep: spec_fn(Seq<char>) -> bool) -> Seq<Seq<char>> {
    list.filter(keep)
}

/// The test that a region is none of `hidden`.
pub open spec fn not_among(hidden: Seq<Seq<char>>) -> spec_fn(Seq<char>) -> bool {
    |region: Seq<char>| !hidden.contains(region)
}

/// The test that a region is another one than `region`.
pub open spec fn other_than(region: Seq<char>) -> spec_fn(Seq<char>) -> bool {
    |other: Seq<char>| other != region
}

/// The test that an entry is not empty.
pub open spec fn not_empty() -> spec_fn(Seq<char>) -> bool {
    |entry: Seq<char>| entry.len() > 0
}

/// The entries of a comma-separated list: its fields, but for empty ones,
/// which stand for nothing. An empty list has no entries, and neither has a
/// list that is not there.
pub open spec fn entries_of(list: Option<Seq<char>>) -> Seq<Seq<char>> {
    match list {
        Some(list) => kept(split_on(list, ','), not_empty()),
        None => Seq::empty(),
    }
}

/// A comma-separated list with one more entry at its end; the entry alone
/// where the list was empty or not there.
pub open spec fn appended(list: Option<Seq<char>>, entry: Seq<char>) -> Seq<char> {
    match list {
        Some(list) => if list.len() == 0 {
            entry
        } else {
            list.push(',') + entry
        },
        None => entry,
    }
}

/// A name that can stand on a comma-separated list: it is not empty and
/// holds no comma.
pub open spec fn is_entry(name: Seq<char>) -> bool {
    name.len() > 0 && !name.contains(',')
}

/// Keeping from a list with one more item keeps that item if it passes.
pub proof fn lemma_kept_push(list: Seq<Seq<char>>, item: Seq<char>, keep: spec_fn(Seq<char>) -> bool)
    ensures
        kept(list.push(item), keep) == if keep(item) {
            kept(list, keep).push(item)
        } else {
            kept(list, keep)
        },
        kept(Seq::empty(), keep) == Seq::<Seq<char>>::empty(),
{
    reveal(Seq::filter);
    assert(list.push(item).drop_last() =~= list);
}

/// What is kept is what was on the list and passes.
pub proof fn lemma_kept_contains(
    list: Seq<Seq<char>>,
    keep: spec_fn(Seq<char>) -> bool,
    item: Seq<char>,
)
    ensures
        kept(list, keep).contains(item) <==> list.contains(item) && keep(item),
    decreases list.len(),
{
    if list.len() == 0 {
        lemma_kept_push(list, item, keep);
        assert(list =~= Seq::empty());
    } else {
        let head = list.drop_last();
        let last = list.last();
        assert(head.push(last) =~= list);
        lemma_kept_push(head, last, keep);
        lemma_kept_contains(head, keep, item);
        let rest = kept(head, keep);
        if list.contains(item) {
            let i = choose|i: int| 0 <= i < list.len() && list[i] == item;
            if i < head.len() {
                assert(head[i] == item);
            }
        }
        if head.contains(item) {
            let i = choose|i: int| 0 <= i < head.len() && head[i] == item;
            assert(list[i] == item);
        }
        assert(list[list.len() - 1] == last);
        if keep(last) {
            assert(rest.push(last)[rest.len() as int] == last);
            if rest.push(last).contains(item) {
                let i = choose|i: int| 0 <= i < rest.push(last).len() && rest.push(last)[i] == item;
                if i < rest.len() {
                    assert(rest[i] == item);
                }
            }
            if rest.contains(item) {
                let i = choose|i: int| 0 <= i < rest.len() && rest[i] == item;
                assert(rest.push(last)[i] == item);
            }
        }
    }
}

/// A list whose items all pass is kept whole.
pub proof fn lemma_kept_all(list: Seq<Seq<char>>, keep: spec_fn(Seq<char>) -> bool)
    requires
        forall|i: int| 0 <= i < list.len() ==> keep(#[trigger] list[i]),
    ensures
        kept(list, keep) == list,
    decreases list.len(),
{
    if list.len() == 0 {
        lemma_kept_push(list, Seq::empty(), keep);
        assert(list =~= Seq::empty());
    } else {
        let head = list.drop_last();
        assert(head.push(list.last()) =~= list);
        assert forall|i: int| 0 <= i < head.len() implies keep(#[trigger] head[i]) by {
            assert(head[i] == list[i]);
        }
        lemma_kept_all(head, keep);
        lemma_kept_push(head, list.last(), keep);
        assert(keep(list[list.len() - 1]));
    }
}

/// Every entry of a list can stand on a list: none is empty, none holds a
/// comma.
pub proof fn lemma_entries_are_entries(list: Option<Seq<char>>, entry: Seq<char>)
    requires
        entries_of(list).contains(entry),
    ensures
        is_entry(entry),
{
    match list {
        Some(text) => {
            let fields = split_on(text, ',');
            lemma_kept_contains(fields, not_empty(), entry);
            lemma_split_on(text, ',');
            let i = choose|i: int| 0 <= i < fields.len() && fields[i] == entry;
            assert(!fields[i].contains(','));
        },
        None => {},
    }
}

/// A list with one more entry at its end has that entry behind the
/// entries it had.
pub proof fn lemma_entries_appended(list: Option<Seq<char>>, entry: Seq<char>)
    requires
        is_entry(entry),
    ensures
        entries_of(Some(appended(list, entry))) == entries_of(list).push(entry),
{
    let none = Seq::<Seq<char>>::empty();
    lemma_kept_push(none, entry, not_empty());
    if list is Some && list->Some_0.len() > 0 {
        let text = list->Some_0;
        lemma_split_appended(text, entry, ',');
        lemma_kept_push(split_on(text, ','), entry, not_empty());
    } else {
        lemma_split_single(entry, ',');
        assert(none.push(entry) =~= seq![entry]);
        if list is Some {
            let text = list->Some_0;
            assert(text =~= Seq::<char>::empty());
            lemma_kept_push(none, text, not_empty());
            assert(none.push(text) =~= split_on(text, ','));
        }
    }
}

/// Entries joined to a list are the entries of that list.
pub proof fn lemma_entries_joined(entries: Seq<Seq<char>>)
    requires
        forall|i: int| 0 <= i < entries.len() ==> is_entry(#[trigger] entries[i]),
    ensures
        entries_of(Some(join_with(entries, ','))) == entries,
{
    if entries.len() == 0 {
        let none = Seq::<Seq<char>>::empty();
        let text = join_with(entries, ',');
        lemma_kept_push(none, text, not_empty());
        assert(none.push(text) =~= split_on(text, ','));
        assert(entries =~= none);
    } else {
        lemma_split_joined(entries, ',');
        lemma_kept_all(entries, not_empty());
    }
}

/// The settings: the list of hidden regions and the list of favourites, each
/// as it is stored, if it is.
pub struct ConfigView {
    pub hidden: Option<Seq<char>>,
    pub favorite: Option<Seq<char>>,
}

impl ConfigView {
    /// The hidden regions.
    pub open spec fn hidden_regions(self) -> Seq<Seq<char>> {
        entries_of(self.hidden)
    }

    /// The regions on offer that are not hidden.
    pub open spec fn visible_regions(self) -> Seq<Seq<char>> {
        kept(default_regions(), not_among(self.hidden_regions()))
    }

    /// The favourite regions.
    pub open spec fn favorite_regions(self) -> Seq<Seq<char>> {
        entries_of(self.favorite)
    }

    /// One more region hidden.
    pub open spec fn hiding(self, region: Seq<char>) -> ConfigView {
        ConfigView { hidden: Some(appended(self.hidden, region)), ..self }
    }

    /// No region hidden.
    pub open spec fn hiding_none(self) -> ConfigView {
        ConfigView { hidden: Some(Seq::empty()), ..self }
    }

    /// One more favourite.
    pub open spec fn favoring(self, region: Seq<char>) -> ConfigView {
        ConfigView { favorite: Some(appended(self.favorite, region)), ..self }
    }

    /// A favourite less: every entry equal to `region` leaves the list. The
    /// settings stay as they are if it is no favourite.
    pub open spec fn unfavoring(self, region: Seq<char>) -> ConfigView {
        if self.favorite_regions().contains(region) {
            ConfigView {
                favorite: Some(join_with(kept(self.favorite_regions(), other_than(region)), ',')),
                ..self
            }
        } else {
            self
        }
    }

    /// A favourite is made none, and another region is made one.
    pub open spec fn toggling(self, region: Seq<char>) -> ConfigView {
        if self.favorite_regions().contains(region) {
            self.unfavoring(region)
        } else {
            self.favoring(region)
        }
    }
}

/// Taking a favourite off the list leaves the other entries as they are.
pub proof fn lemma_unfavoring(config: ConfigView, region: Seq<char>)
    ensures
        config.unfavoring(region).favorite_regions() == kept(
            config.favorite_regions(),
            other_than(region),
        ),
        config.unfavoring(region).hidden == config.hidden,
{
    let entries = config.favorite_regions();
    let rest = kept(entries, other_than(region));
    if entries.contains(region) {
        assert forall|i: int| 0 <= i < rest.len() implies is_entry(#[trigger] rest[i]) by {
            lemma_kept_contains(entries, other_than(region), rest[i]);
            lemma_entries_are_entries(config.favorite, rest[i]);
        }
        lemma_entries_joined(rest);
    } else {
        assert forall|i: int| 0 <= i < entries.len() implies other_than(region)(
            #[trigger] entries[i],
        ) by {}
        lemma_kept_all(entries, other_than(region));
    }
}

/// Toggling makes a favourite of a region that was none and takes a
/// favourite off the list; whether any other region is a favourite stays as
/// it was. A second toggle gives the set of favourites back. This holds of
/// every region whose name can stand on a list.
pub proof fn lemma_toggle_favorite(config: ConfigView, region: Seq<char>)
    requires
        is_entry(region),
    ensures
        config.toggling(region).hidden == config.hidden,
        config.toggling(region).favorite_regions().contains(region)
            <==> !config.favorite_regions().contains(region),
        forall|other: Seq<char>|
            other != region ==> (#[trigger] config.toggling(region).favorite_regions().contains(
                other,
            ) <==> config.favorite_regions().contains(other)),
        forall|any: Seq<char>| #[trigger]
            config.toggling(region).toggling(region).favorite_regions().contains(any)
                <==> config.favorite_regions().contains(any),
{
    lemma_toggle_once(config, region);
    lemma_toggle_once(config.toggling(region), region);
}

/// The first half of `lemma_toggle_favorite`: one toggle.
proof fn lemma_toggle_once(config: ConfigView, region: Seq<char>)
    requires
        is_entry(region),
    ensures
        config.toggling(region).hidden == config.hidden,
        config.toggling(region).favorite_regions().contains(region)
            <==> !config.favorite_regions().contains(region),
        forall|other: Seq<char>|
            other != region ==> (#[trigger] config.toggling(region).favorite_regions().contains(
                other,
            ) <==> config.favorite_regions().contains(other)),
{
    let before = config.favorite_regions();
    let after = config.toggling(region).favorite_regions();
    if before.contains(region) {
        lemma_unfavoring(config, region);
        lemma_kept_contains(before, other_than(region), region);
        assert forall|other: Seq<char>| other != region implies (#[trigger] after.contains(other)
            <==> before.contains(other)) by {
            lemma_kept_contains(before, other_than(region), other);
        }
    } else {
        lemma_entries_appended(config.favorite, region);
        assert(after == before.push(region));
        assert(after[before.len() as int] == region);
        assert forall|other: Seq<char>| other != region implies (#[trigger] after.contains(other)
            <==> before.contains(other)) by {
            if after.contains(other) {
                let i = choose|i: int| 0 <= i < after.len() && after[i] == other;
                assert(before[i] == other);
            }
            if before.contains(other) {
                let i = choose|i: int| 0 <= i < before.len() && before[i] == other;
                assert(after[i] == other);
            }
        }
    }
}

/// A hidden region is hidden and not on offer; the regions hidden before
/// stay hidden. This holds of every region whose name can stand on a list.
pub proof fn lemma_hiding(config: ConfigView, region: Seq<char>)
    requires
        is_entry(region),
    ensures
        config.hiding(region).hidden_regions() == config.hidden_regions().push(region),
        !config.hiding(region).visible_regions().contains(region),
        config.hiding(region).favorite == config.favorite,
{
    lemma_entries_appended(config.hidden, region);
    let hidden = config.hiding(region).hidden_regions();
    assert(hidden[config.hidden_regions().len() as int] == region);
    lemma_kept_contains(default_regions(), not_among(hidden), region);
}

/// Once no region is hidden, all regions are on offer.
pub proof fn lemma_hiding_none(config: ConfigView)
    ensures
        config.hiding_none().hidden_regions() == Seq::<Seq<char>>::empty(),
        config.hiding_none().visible_regions() == default_regions(),
        config.hiding_none().favorite == config.favorite,
{
    lemma_entries_joined(Seq::empty());
    let none = Seq::<Seq<char>>::empty();
    assert(join_with(none, ',') =~= Seq::<char>::empty());
    assert forall|i: int| 0 <= i < default_regions().len() implies not_among(none)(
        #[trigger] default_regions()[i],
    ) by {}
    lemma_kept_all(default_regions(), not_among(none));
}

/// The entries of a stored list: its fields that are not empty. None where
/// no list is stored.
pub fn list_entries(list: Option<String>) -> (entries: Vec<String>)
    ensures
        entries.deep_view() == entries_of(list.deep_view()),
{
    let mut entries: Vec<String> = Vec::new();
    match list {
        Some(list) => {
            let fields = split(list.as_str(), ',');
            let mut i: usize = 0;
            proof {
                lemma_kept_push(Seq::empty(), Seq::empty(), not_empty());
                assert(fields.deep_view().take(0) =~= Seq::<Seq<char>>::empty());
                assert(entries.deep_view() =~= Seq::<Seq<char>>::empty());
            }
            while i < fields.len()
                invariant
                    i <= fields.len(),
                    entries.deep_view() == kept(fields.deep_view().take(i as int), not_empty()),
                decreases fields.len() - i,
            {
                let ghost before = entries.deep_view();
                proof {
                    lemma_kept_push(
                        fields.deep_view().take(i as int),
                        fields[i as int]@,
                        not_empty(),
                    );
                    assert(fields.deep_view().take(i as int).push(fields[i as int]@)
                        =~= fields.deep_view().take(i + 1));
                }
                if !fields[i].as_str().is_empty() {
                    entries.push(fields[i].clone());
                    assert(entries.deep_view() =~= before.push(fields[i as int]@));
                }
                i += 1;
            }
            assert(fields.deep_view().take(fields.len() as int) =~= fields.deep_view());
        },
        None => {
            assert(entries.deep_view() =~= Seq::<Seq<char>>::empty());
        },
    }
    entries
}

/// A stored list with one more entry at its end; the entry alone where the
/// list is empty or not stored.
pub fn append_entry(list: Option<String>, entry: String) -> (r: String)
    ensures
        r@ == appended(list.deep_view(), entry@),
{
    match list {
        Some(list) => {
            if list.as_str().is_empty() {
                entry
            } else {
                let mut list = list;
                list.push(',');
                list.append(entry.as_str());
                list
            }
        },
        None => entry,
    }
}

/// The regions on offer that are none of `hidden`, in the order of the
/// offer.
pub fn regions_except(hidden: &Vec<String>) -> (regions: Vec<String>)
    ensures
        regions.deep_view() == kept(default_regions(), not_among(hidden.deep_view())),
{
    let defaults = Config::get_default_regions();
    let mut regions: Vec<String> = Vec::new();
    let mut i: usize = 0;
    while i < defaults.len()
        invariant
            i <= defaults.len(),
            regions.deep_view() == kept(
                defaults.deep_view().take(i as int),
                not_among(hidden.deep_view()),
            ),
        decreases defaults.len() - i,
    {
        let ghost before = regions.deep_view();
        let ghost upto = defaults.deep_view().take(i + 1);
        proof {
            reveal(Seq::filter);
            assert(upto.drop_last() =~= defaults.deep_view().take(i as int));
        }
        if !contains_string(hidden, &defaults[i]) {
            regions.push(defaults[i].clone());
            assert(regions.deep_view() =~= before.push(defaults[i as int]@));
        }
        i += 1;
    }
    assert(defaults.deep_view().take(defaults.len() as int) =~= defaults.deep_view());
    regions
}

/// The entries other than `entry`, in their order.
pub fn entries_except(entries: &Vec<String>, entry: &String) -> (rest: Vec<String>)
    ensures
        rest.deep_view() == kept(entries.deep_view(), other_than(entry@)),
{
    let mut rest: Vec<String> = Vec::new();
    let mut i: usize = 0;
    while i < entries.len()
        invariant
            i <= entries.len(),
            rest.deep_view() == kept(entries.deep_view().take(i as int), other_than(entry@)),
        decreases entries.len() - i,
    {
        let ghost before = rest.deep_view();
        let ghost upto = entries.deep_view().take(i + 1);
        proof {
            reveal(Seq::filter);
            assert(upto.drop_last() =~= entries.deep_view().take(i as int));
        }
        if entries[i] != *entry {
            rest.push(entries[i].clone());
            assert(rest.deep_view() =~= before.push(entries[i as int]@));
        }
        i += 1;
    }
    assert(entries.deep_view().take(entries.len() as int) =~= entries.deep_view());
    rest
}

/// The user's settings.
pub struct Config {
    internal: Ini,
}

impl View for Config {
    type V = ConfigView;

    closed spec fn view(&self) -> ConfigView {
        ConfigView {
            hidden: ini_entry(ini_values(self.internal), "regions"@, "hidden"@),
            favorite: ini_entry(ini_values(self.internal), "regions"@, "favorite"@),
        }
    }
}

/// The section and the keys are names that the document takes as they stand,
/// and the two keys differ.
proof fn lemma_names()
    ensures
        is_folded("regions"@),
        is_folded("hidden"@),
        is_folded("favorite"@),
        "hidden"@ != "favorite"@,
{
    reveal_strlit("regions");
    reveal_strlit("hidden");
    reveal_strlit("favorite");
}

/// What a settings document holds for the two lists.
pub open spec fn stored_lists(values: IniValues) -> ConfigView {
    ConfigView {
        hidden: ini_entry(values, "regions"@, "hidden"@),
        favorite: ini_entry(values, "regions"@, "favorite"@),
    }
}

impl Config {
    /// The document's settings are those it was made with.
    pub closed spec fn wf(&self) -> bool {
        ini_plain(self.internal)
    }

    /// The settings stored in `stored`, the text of the settings file; empty
    /// settings where there is no such file. A text that the ini parser
    /// refuses gives its complaint.
    pub fn new(stored: Option<String>) -> (r: Result<Config, String>)
        ensures
            match r {
                Ok(config) => config.wf() && match stored {
                    Some(text) => ini_parse(text@) is Some && config@ == stored_lists(
                        ini_parse(text@)->Some_0,
                    ),
                    None => config@ == (ConfigView { hidden: None, favorite: None }),
                },
                Err(_) => stored is Some && ini_parse(stored->Some_0@) is None,
            },
    {
        let mut internal = ini_new();
        match stored {
            Some(text) => match ini_read(&mut internal, text) {
                Ok(_) => Ok(Config { internal }),
                Err(why) => Err(why),
            },
            None => Ok(Config { internal }),
        }
    }

    /// The text to store in the settings file: an ini document that shows
    /// each stored list behind its key, under the header of its section. In
    /// which order the lines come is not determined.
    pub fn to_text(&self) -> (text: String)
        requires
            self.wf(),
        ensures
            self@.hidden is Some ==> is_substring(
                entry_line("hidden"@, self@.hidden->Some_0),
                text@,
            ),
            self@.favorite is Some ==> is_substring(
                entry_line("favorite"@, self@.favorite->Some_0),
                text@,
            ),
            self@.hidden is Some || self@.favorite is Some ==> is_substring(
                section_line("regions"@),
                text@,
            ),
    {
        proof {
            reveal_strlit("regions");
            reveal_strlit("default");
            assert("regions"@[0] != "default"@[0]);
        }
        let text = ini_writes(&self.internal);
        proof {
            let values = ini_values(self.internal);
            if self@.hidden is Some {
                assert(values.contains_key(("regions"@, "hidden"@)));
            }
            if self@.favorite is Some {
                assert(values.contains_key(("regions"@, "favorite"@)));
            }
        }
        text
    }

    /// The regions on offer when none is hidden.
    pub fn get_default_regions() -> (regions: Vec<String>)
        ensures
            regions.deep_view() == default_regions(),
    {
        let mut regions: Vec<String> = Vec::new();
        regions.push(String::from_str("af-south-1"));
        regions.push(String::from_str("ap-east-1"));
        regions.push(String::from_str("ap-northeast-1"));
        regions.push(String::from_str("ap-northeast-2"));
        regions.push(String::from_str("ap-northeast-3"));
        regions.push(String::from_str("ap-south-1"));
        regions.push(String::from_str("ap-south-2"));
        regions.push(String::from_str("ap-southeast-1"));
        regions.push(String::from_str("ap-southeast-2"));
        regions.push(String::from_str("ap-southeast-3"));
        regions.push(String::from_str("ap-southeast-4"));
        regions.push(String::from_str("ca-central-1"));
        regions.push(String::from_str("ca-west-1"));
        regions.push(String::from_str("eu-central-1"));
        regions.push(String::from_str("eu-central-2"));
        regions.push(String::from_str("eu-north-1"));
        regions.push(String::from_str("eu-south-1"));
        regions.push(String::from_str("eu-south-2"));
        regions.push(String::from_str("eu-west-1"));
        regions.push(String::from_str("eu-west-2"));
        regions.push(String::from_str("eu-west-3"));
        regions.push(String::from_str("il-central-1"));
        regions.push(String::from_str("me-central-1"));
        regions.push(String::from_str("me-south-1"));
        regions.push(String::from_str("sa-east-1"));
        regions.push(String::from_str("us-east-1"));
        regions.push(String::from_str("us-east-2"));
        regions.push(String::from_str("us-west-1"));
        regions.push(String::from_str("us-west-2"));
        regions
    }

    /// The stored list of hidden regions.
    fn hidden(&self) -> (r: Option<String>)
        requires
            self.wf(),
        ensures
            r.deep_view() == self@.hidden,
    {
        proof {
            lemma_names();
        }
        ini_get(&self.internal, "regions", "hidden")
    }

    /// The stored list of favourites.
    fn favorite(&self) -> (r: Option<String>)
        requires
            self.wf(),
        ensures
            r.deep_view() == self@.favorite,
    {
        proof {
            lemma_names();
        }
        ini_get(&self.internal, "regions", "favorite")
    }

    /// Stores the list of hidden regions.
    fn set_hidden(&mut self, list: String)
        requires
            old(self).wf(),
        ensures
            final(self).wf(),
            final(self)@ == (ConfigView { hidden: Some(list@), ..old(self)@ }),
    {
        proof {
            lemma_names();
        }
        ini_set(&mut self.internal, "regions", "hidden", list);
    }

    /// Stores the list of favourites.
    fn set_favorite(&mut self, list: String)
        requires
            old(self).wf(),
        ensures
            final(self).wf(),
            final(self)@ == (ConfigView { favorite: Some(list@), ..old(self)@ }),
    {
        proof {
            lemma_names();
        }
        ini_set(&mut self.internal, "regions", "favorite", list);
    }

    /// The regions on offer that are not hidden, in the order of the offer.
    pub fn get_visible_regions(&self) -> (regions: Vec<String>)
        requires
            self.wf(),
        ensures
            regions.deep_view() == self@.visible_regions(),
    {
        let hidden_regions = list_entries(self.hidden());
        regions_except(&hidden_regions)
    }

    /// Hides a region: it is put at the end of the stored list.
    pub fn hide_region(&mut self, region: String)
        requires
            old(self).wf(),
        ensures
            final(self).wf(),
            final(self)@ == old(self)@.hiding(region@),
    {
        let list = append_entry(self.hidden(), region);
        self.set_hidden(list);
    }

    /// Hides no region any more: the stored list is emptied.
    pub fn reset_hidden_regions(&mut self)
        requires
            old(self).wf(),
        ensures
            final(self).wf(),
            final(self)@ == old(self)@.hiding_none(),
    {
        self.set_hidden(String::new());
    }

    /// The favourites, in the order of the stored list.
    pub fn get_favorite_regions(&self) -> (regions: Vec<String>)
        requires
            self.wf(),
        ensures
            regions.deep_view() == self@.favorite_regions(),
    {
        list_entries(self.favorite())
    }

    /// Makes a favourite of a region that is none, and takes a favourite off the list.
    pub fn toggle_favorite_region(&mut self, region: String)
        requires
            old(self).wf(),
        ensures
            final(self).wf(),
            final(self)@ == old(self)@.toggling(region@),
    {
        let favorite_regions = self.get_favorite_regions();
        if contains_string(&favorite_regions, &region) {
            self.unset_favorite_region(region)
        } else {
            self.favorite_region(region);
        }
    }

    /// Takes a region off the list of favourites, wherever it stands on it.
    pub fn unset_favorite_region(&mut self, region: String)
        requires
            old(self).wf(),
        ensures
            final(self).wf(),
            final(self)@ == old(self)@.unfavoring(region@),
    {
        let favorite_regions = self.get_favorite_regions();
        if contains_string(&favorite_regions, &region) {
            let new_favs = entries_except(&favorite_regions, &region);
            self.set_favorite(join(&new_favs, ','));
        }
    }

    /// Puts a region at the end of the list of favourites.
    pub fn favorite_region(&mut self, region: String)
        requires
            old(self).wf(),
        ensures
            final(self).wf(),
            final(self)@ == old(self)@.favoring(region@),
    {
        let list = append_entry(self.favorite(), region);
        self.set_favorite(list);
    }
}

} // verus!
