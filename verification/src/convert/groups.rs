//! The tag groups that a game has, by tag and by name.
use crate::fields::flag_names;
use crate::guid::{group_tag_in, parse_group_tag};
use crate::json::{
    fault_in_json, json_fault, json_member, json_members, json_text, member_of, member_views,
    members_of_json, text_of_json,
};
use crate::text::{concat2, concat4, copy, lower, lowered, same};
use vstd::prelude::*;

verus! {

/// The groups of a game: the name of each group tag, and the tag of each name in
/// lower case. No tag and no name stands twice.
#[derive(Debug, PartialEq, Eq, Default)]
pub struct GameTagIndex {
    pub by_tag: Vec<(u32, String)>,
    pub by_name: Vec<(String, u32)>,
}

pub ghost struct GroupsView {
    pub names: Seq<(u32, Seq<char>)>,
    pub tags: Seq<(Seq<char>, u32)>,
}

/// The views of the tags by name.
pub open spec fn tag_views(v: Seq<(String, u32)>) -> Seq<(Seq<char>, u32)> {
    Seq::new(v.len(), |i: int| (v[i].0@, v[i].1))
}

/// The position of `tag` at or behind `from`.
pub open spec fn place_of_tag(names: Seq<(u32, Seq<char>)>, tag: u32, from: nat) -> Option<nat>
    decreases names.len() - from,
{
    if from >= names.len() {
        None
    } else if names[from as int].0 == tag {
        Some(from)
    } else {
        place_of_tag(names, tag, from + 1)
    }
}

/// The position of `name` at or behind `from`.
pub open spec fn place_of_name(tags: Seq<(Seq<char>, u32)>, name: Seq<char>, from: nat) -> Option<
    nat,
>
    decreases tags.len() - from,
{
    if from >= tags.len() {
        None
    } else if tags[from as int].0 == name {
        Some(from)
    } else {
        place_of_name(tags, name, from + 1)
    }
}

impl GroupsView {
    pub open spec fn empty() -> GroupsView {
        GroupsView { names: Seq::empty(), tags: Seq::empty() }
    }

    /// The name of the group with the tag `tag`.
    pub open spec fn name_of(self, tag: u32) -> Option<Seq<char>> {
        match place_of_tag(self.names, tag, 0) {
            Some(p) => Some(self.names[p as int].1),
            None => None,
        }
    }

    /// The tag of the group with the lower-case name `name`.
    pub open spec fn tag_of(self, name: Seq<char>) -> Option<u32> {
        match place_of_name(self.tags, name, 0) {
            Some(p) => Some(self.tags[p as int].1),
            None => None,
        }
    }

    /// With the group `name` under `tag`; what stood under either is replaced.
    pub open spec fn with_group(self, tag: u32, name: Seq<char>) -> GroupsView {
        GroupsView {
            names: match place_of_tag(self.names, tag, 0) {
                Some(p) => self.names.update(p as int, (tag, name)),
                None => self.names.push((tag, name)),
            },
            tags: match place_of_name(self.tags, lowered(name), 0) {
                Some(p) => self.tags.update(p as int, (lowered(name), tag)),
                None => self.tags.push((lowered(name), tag)),
            },
        }
    }

    /// With the first `n` entries of a tag index, as far as they are a group tag
    /// and a name.
    pub open spec fn with_entries(
        self,
        entries: Seq<(Seq<char>, Seq<u8>)>,
        n: nat,
    ) -> GroupsView
        decreases n,
    {
        if n == 0 || n > entries.len() {
            self
        } else {
            let before = self.with_entries(entries, (n - 1) as nat);
            let entry = entries[n - 1];
            match (group_tag_in(entry.0), json_text(entry.1)) {
                (Some(tag), Some(name)) => before.with_group(tag, name),
                _ => before,
            }
        }
    }
}

proof fn lemma_place_of_tag(names: Seq<(u32, Seq<char>)>, tag: u32, from: nat)
    ensures
        match place_of_tag(names, tag, from) {
            Some(p) => from <= p < names.len() && names[p as int].0 == tag,
            None => forall|i: int| from <= i < names.len() ==> (#[trigger] names[i]).0 != tag,
        },
    decreases names.len() - from,
{
    if from < names.len() && names[from as int].0 != tag {
        lemma_place_of_tag(names, tag, from + 1);
    }
}

proof fn lemma_place_of_name(tags: Seq<(Seq<char>, u32)>, name: Seq<char>, from: nat)
    ensures
        match place_of_name(tags, name, from) {
            Some(p) => from <= p < tags.len() && tags[p as int].0 == name,
            None => forall|i: int| from <= i < tags.len() ==> (#[trigger] tags[i]).0 != name,
        },
    decreases tags.len() - from,
{
    if from < tags.len() && tags[from as int].0 != name {
        lemma_place_of_name(tags, name, from + 1);
    }
}

proof fn lemma_first_place_of_tag(names: Seq<(u32, Seq<char>)>, tag: u32, from: nat, at: nat)
    requires
        from <= at < names.len(),
        names[at as int].0 == tag,
        forall|i: int| from <= i < at ==> (#[trigger] names[i]).0 != tag,
    ensures
        place_of_tag(names, tag, from) == Some(at),
    decreases names.len() - from,
{
    if from < at {
        assert(names[from as int].0 != tag);
        lemma_first_place_of_tag(names, tag, from + 1, at);
    }
}

proof fn lemma_place_is_first(names: Seq<(u32, Seq<char>)>, tag: u32, from: nat)
    ensures
        place_of_tag(names, tag, from) matches Some(p) ==> forall|i: int|
            from <= i < p ==> (#[trigger] names[i]).0 != tag,
    decreases names.len() - from,
{
    if from < names.len() && names[from as int].0 != tag {
        lemma_place_is_first(names, tag, from + 1);
    }
}

/// A group that is put in is found by its tag.
pub proof fn an_entered_group_is_found(groups: GroupsView, tag: u32, name: Seq<char>)
    ensures
        groups.with_group(tag, name).name_of(tag) == Some(name),
{
    let after = groups.with_group(tag, name).names;
    lemma_place_of_tag(groups.names, tag, 0);
    lemma_place_is_first(groups.names, tag, 0);
    match place_of_tag(groups.names, tag, 0) {
        Some(p) => {
            assert forall|i: int| 0 <= i < p implies (#[trigger] after[i]).0 != tag by {
                assert(after[i] == groups.names[i]);
            }
            lemma_first_place_of_tag(after, tag, 0, p);
        },
        None => {
            let p = groups.names.len();
            assert forall|i: int| 0 <= i < p implies (#[trigger] after[i]).0 != tag by {
                assert(after[i] == groups.names[i]);
            }
            lemma_first_place_of_tag(after, tag, 0, p);
        },
    }
}

impl GameTagIndex {
    pub open spec fn view(&self) -> GroupsView {
        GroupsView { names: flag_names(self.by_tag@), tags: tag_views(self.by_name@) }
    }

    /// No groups.
    pub fn new() -> (r: GameTagIndex)
        ensures
            r@ == GroupsView::empty(),
    {
        let r: GameTagIndex = GameTagIndex { by_tag: Vec::new(), by_name: Vec::new() };
        assert(r@.names =~= Seq::empty());
        assert(r@.tags =~= Seq::empty());
        r
    }

    fn tag_place(&self, tag: u32) -> (r: Option<usize>)
        ensures
            match r {
                Some(p) => place_of_tag(self@.names, tag, 0) == Some(p as nat) && p
                    < self.by_tag.len(),
                None => place_of_tag(self@.names, tag, 0) is None,
            },
    {
        let mut i: usize = 0;
        while i < self.by_tag.len()
            invariant
                i <= self.by_tag.len(),
                place_of_tag(self@.names, tag, 0) == place_of_tag(self@.names, tag, i as nat),
            decreases self.by_tag.len() - i,
        {
            assert(self@.names[i as int].0 == self.by_tag@[i as int].0);
            if self.by_tag[i].0 == tag {
                return Some(i);
            }
            i = i + 1;
        }
        None
    }

    fn name_place(&self, name: &str) -> (r: Option<usize>)
        ensures
            match r {
                Some(p) => place_of_name(self@.tags, name@, 0) == Some(p as nat) && p
                    < self.by_name.len(),
                None => place_of_name(self@.tags, name@, 0) is None,
            },
    {
        let mut i: usize = 0;
        while i < self.by_name.len()
            invariant
                i <= self.by_name.len(),
                place_of_name(self@.tags, name@, 0) == place_of_name(self@.tags, name@, i as nat),
            decreases self.by_name.len() - i,
        {
            assert(self@.tags[i as int].0 == self.by_name@[i as int].0@);
            if same(&self.by_name[i].0, name) {
                return Some(i);
            }
            i = i + 1;
        }
        None
    }

    /// The name of the group with the tag `tag`.
    pub fn name_of(&self, tag: u32) -> (r: Option<&str>)
        ensures
            match r {
                Some(name) => self@.name_of(tag) == Some(name@),
                None => self@.name_of(tag) is None,
            },
    {
        match self.tag_place(tag) {
            Some(p) => Some(self.by_tag[p].1.as_str()),
            None => None,
        }
    }

    /// The tag of the group with the lower-case name `name`.
    pub fn tag_of(&self, name: &str) -> (r: Option<u32>)
        ensures
            r == self@.tag_of(name@),
    {
        match self.name_place(name) {
            Some(p) => Some(self.by_name[p].1),
            None => None,
        }
    }

    /// Puts the group `name` under `tag`.
    pub fn insert(&mut self, tag: u32, name: &str)
        ensures
            final(self)@ == old(self)@.with_group(tag, name@),
    {
        let ghost before = *self;
        let entry: (u32, String) = (tag, copy(name));
        match self.tag_place(tag) {
            Some(p) => {
                self.by_tag[p] = entry;
                assert(flag_names(self.by_tag@) =~= flag_names(before.by_tag@).update(
                    p as int,
                    (tag, name@),
                ));
            },
            None => {
                self.by_tag.push(entry);
                assert(flag_names(self.by_tag@) =~= flag_names(before.by_tag@).push((tag, name@)));
            },
        }
        let key: String = lower(name);
        match self.name_place(&key) {
            Some(p) => {
                self.by_name[p] = (key, tag);
                assert(tag_views(self.by_name@) =~= tag_views(before.by_name@).update(
                    p as int,
                    (lowered(name@), tag),
                ));
            },
            None => {
                self.by_name.push((key, tag));
                assert(tag_views(self.by_name@) =~= tag_views(before.by_name@).push(
                    (lowered(name@), tag),
                ));
            },
        }
    }

    /// The groups that the `tag_index` of a game's index file names.
    ///
    /// `path` is where the bytes were read; it stands in the messages.
    pub fn load(path: &str, bytes: &Vec<u8>) -> (r: Result<GameTagIndex, String>)
        ensures
            match r {
                Ok(index) => groups_in(path@, bytes@) == Ok::<GroupsView, Seq<char>>(index@),
                Err(message) => groups_in(path@, bytes@) == Err::<GroupsView, Seq<char>>(message@),
            },
    {
        if let Some(error) = fault_in_json(bytes) {
            return Err(concat4("Could not parse ", path, ": ", &error));
        }
        let missing: String = concat2(path, " is missing tag_index");
        let entries: Vec<(String, Vec<u8>)> = match member_of(bytes, "tag_index") {
            Some(value) => match members_of_json(&value) {
                Some(entries) => entries,
                None => {
                    return Err(missing);
                },
            },
            None => {
                return Err(missing);
            },
        };
        let ghost all = member_views(entries@);
        let mut index: GameTagIndex = GameTagIndex::new();
        let mut i: usize = 0;
        while i < entries.len()
            invariant
                i <= entries.len(),
                all == member_views(entries@),
                index@ == GroupsView::empty().with_entries(all, i as nat),
            decreases entries.len() - i,
        {
            assert(all[i as int] == (entries@[i as int].0@, entries@[i as int].1@));
            match (parse_group_tag(&entries[i].0), text_of_json(&entries[i].1)) {
                (Some(tag), Some(name)) => {
                    index.insert(tag, &name);
                },
                _ => {},
            }
            i = i + 1;
        }
        Ok(index)
    }
}

/// The groups that an index file names, or why it names none.
pub open spec fn groups_in(path: Seq<char>, bytes: Seq<u8>) -> Result<GroupsView, Seq<char>> {
    match json_fault(bytes) {
        Some(error) => Err("Could not parse "@ + path + ": "@ + error),
        None => match json_member(bytes, "tag_index"@) {
            Some(value) => match json_members(value) {
                Some(entries) => Ok(GroupsView::empty().with_entries(entries, entries.len())),
                None => Err(path + " is missing tag_index"@),
            },
            None => Err(path + " is missing tag_index"@),
        },
    }
}

}
