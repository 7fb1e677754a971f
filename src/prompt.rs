//! A stored prompt: its identity, name, content, tags and timestamps.
use vstd::prelude::*;
use crate::naming::{
    generate_name_from_content, is_unique_name_for, make_unique_name, name_from_content,
};
use crate::text::{first_line, first_line_of};
use crate::resolver::views;

verus! {

/// A prompt with its metadata.  The identifier is the 128-bit value of a
/// UUID; the timestamps are milliseconds since the Unix epoch, in UTC.  The
/// caller supplies fresh identifiers and the current time.
#[derive(Clone, Debug)]
pub struct Prompt {
    /// Unique identifier.
    pub id: u128,
    /// Name, derived from the content and made unique.
    pub name: String,
    /// The text of the prompt.
    pub content: String,
    /// Tags, each at most once.
    pub tags: Vec<String>,
    /// When the prompt was created.
    pub created: i64,
    /// When the prompt was last changed.
    pub modified: i64,
}

/// Whether one of `tags` is `tag`.
fn holds_tag(tags: &Vec<String>, tag: &str) -> (r: Option<usize>)
    ensures
        match r {
            Some(i) => i < tags.len() && tags@[i as int]@ == tag@ && forall|j: int|
                0 <= j < i ==> (#[trigger] tags@[j])@ != tag@,
            None => !views(tags@).contains(tag@),
        },
{
    let key = tag.to_owned();
    let mut i: usize = 0;
    while i < tags.len()
        invariant
            i <= tags.len(),
            key@ == tag@,
            forall|j: int| 0 <= j < i ==> (#[trigger] tags@[j])@ != tag@,
        decreases tags.len() - i,
    {
        if tags[i] == key {
            return Some(i);
        }
        i = i + 1;
    }
    proof {
        if views(tags@).contains(tag@) {
            let j = choose|j: int| 0 <= j < views(tags@).len() && views(tags@)[j] == tag@;
            assert(tags@[j]@ == tag@);
        }
    }
    None
}

impl Prompt {
    /// A new empty prompt with identifier `id`, created at `now`.
    pub fn new(id: u128, now: i64) -> (r: Self)
        ensures
            r.id == id,
            r.name@.len() == 0,
            r.content@.len() == 0,
            r.tags@.len() == 0,
            r.created == now,
            r.modified == now,
    {
        Prompt {
            id,
            name: String::new(),
            content: String::new(),
            tags: Vec::new(),
            created: now,
            modified: now,
        }
    }

    /// A new prompt holding `content`, named after it, with identifier `id`,
    /// created at `now`.
    pub fn with_content(content: String, id: u128, now: i64) -> (r: Self)
        ensures
            r.id == id,
            r.content@ == content@,
            r.name@ == name_from_content(content@),
            r.tags@.len() == 0,
            r.created == now,
            r.modified == now,
    {
        let mut prompt = Self::new(id, now);
        prompt.name = generate_name_from_content(content.as_str());
        prompt.content = content;
        prompt
    }

    /// Replaces the content and marks the prompt modified at `now`.
    pub fn set_content(&mut self, content: String, now: i64)
        ensures
            final(self).content@ == content@,
            final(self).modified == now,
            final(self).id == old(self).id,
            final(self).name == old(self).name,
            final(self).tags == old(self).tags,
            final(self).created == old(self).created,
    {
        self.content = content;
        self.modified = now;
    }

    /// Adds `tag` unless the prompt has it already; adding marks the prompt
    /// modified at `now`.
    pub fn add_tag(&mut self, tag: String, now: i64)
        ensures
            views(final(self).tags@) == if views(old(self).tags@).contains(tag@) {
                views(old(self).tags@)
            } else {
                views(old(self).tags@).push(tag@)
            },
            final(self).id == old(self).id,
            final(self).name == old(self).name,
            final(self).content == old(self).content,
            final(self).created == old(self).created,
            final(self).modified == if views(old(self).tags@).contains(tag@) {
                old(self).modified
            } else {
                now
            },
    {
        match holds_tag(&self.tags, tag.as_str()) {
            Some(pos) => {
                assert(views(self.tags@)[pos as int] == tag@);
            },
            None => {
                let ghost before = views(self.tags@);
                self.tags.push(tag);
                assert(views(self.tags@) =~= before.push(tag@));
                self.modified = now;
            },
        }
    }

    /// Removes the first occurrence of `tag`, marking the prompt modified at
    /// `now`; returns whether there was one.
    pub fn remove_tag(&mut self, tag: &str, now: i64) -> (r: bool)
        ensures
            r == views(old(self).tags@).contains(tag@),
            r ==> exists|i: int|
                0 <= i < old(self).tags.len() && (#[trigger] old(self).tags@[i])@ == tag@ && (forall|
                    j: int,
                | 0 <= j < i ==> (#[trigger] old(self).tags@[j])@ != tag@) && final(self).tags@
                    == old(self).tags@.remove(i) && final(self).modified == now,
            !r ==> final(self).tags == old(self).tags && final(self).modified == old(self).modified,
            final(self).id == old(self).id,
            final(self).name == old(self).name,
            final(self).content == old(self).content,
            final(self).created == old(self).created,
    {
        match holds_tag(&self.tags, tag) {
            Some(pos) => {
                proof {
                    assert(views(self.tags@)[pos as int] == tag@);
                }
                self.tags.remove(pos);
                self.modified = now;
                true
            },
            None => false,
        }
    }

    /// Whether the prompt has `tag`.
    pub fn has_tag(&self, tag: &str) -> (r: bool)
        ensures
            r == views(self.tags@).contains(tag@),
    {
        match holds_tag(&self.tags, tag) {
            Some(pos) => {
                assert(views(self.tags@)[pos as int] == tag@);
                true
            },
            None => false,
        }
    }

    /// The first line of the content, shown as a preview.
    pub fn first_line(&self) -> (r: String)
        ensures
            r@ == first_line_of(self.content@),
    {
        first_line(self.content.as_str())
    }
}

/// A new prompt holding `content`, named after it with a name that is not
/// among `existing_names`, with identifier `id`, created at `now`.
pub fn create_new_prompt(content: &str, existing_names: &[&str], id: u128, now: i64) -> (r: Prompt)
    requires
        existing_names.len() < usize::MAX,
    ensures
        r.id == id,
        r.created == now,
        r.modified == now,
        r.content@ == content@,
        is_unique_name_for(r.name@, name_from_content(content@), existing_names@),
        r.tags@.len() == 0,
{
    let base_name = generate_name_from_content(content);
    let name = make_unique_name(base_name.as_str(), existing_names);
    let mut prompt = Prompt::with_content(content.to_owned(), id, now);
    prompt.name = name;
    prompt
}

} // verus!
