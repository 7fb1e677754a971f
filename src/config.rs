//! Application settings and tag colours.
use vstd::prelude::*;
use vstd::arithmetic::div_mod::lemma_add_mod_noop;
use crate::resolver::{find_entry, lookup, lookup_from};

verus! {

/// The settings of the application.
#[derive(Clone, Debug)]
pub struct Config {
    /// Whether commands are confirmed before they run.
    pub safe_mode: bool,
    /// Colour names by tag name; the first entry of a tag wins.
    pub tag_colors: Vec<(String, String)>,
    /// The export format used by default: "rendered" or "raw".
    pub default_export_format: String,
}

/// The sum of a sequence of bytes.
pub open spec fn byte_sum(b: Seq<u8>) -> nat
    decreases b.len(),
{
    if b.len() == 0 {
        0
    } else {
        byte_sum(b.drop_last()) + b.last() as nat
    }
}

/// The colours handed out to tags without one of their own.
pub open spec fn palette() -> Seq<Seq<char>> {
    seq!["blue"@, "green"@, "yellow"@, "magenta"@, "cyan"@, "red"@]
}

/// The colour a tag gets by default: picked from the palette by the sum of
/// the bytes of its UTF-8 encoding.
pub open spec fn default_color(tag: Seq<char>) -> Seq<char> {
    palette()[(byte_sum(vstd::utf8::encode_utf8(tag)) % 6) as int]
}

/// The colour of `tag`: its own where one is set, else its default.
pub open spec fn tag_color(entries: Seq<(String, String)>, tag: Seq<char>) -> Seq<char> {
    match lookup(entries, tag) {
        Some(c) => c,
        None => default_color(tag),
    }
}

/// Adding an entry at the end changes a lookup only where nothing was found.
proof fn lemma_lookup_push(s: Seq<(String, String)>, e: (String, String), key: Seq<char>, i: int)
    requires
        0 <= i <= s.len(),
    ensures
        lookup_from(s.push(e), key, i) == match lookup_from(s, key, i) {
            Some(v) => Some(v),
            None => if e.0@ == key {
                Some(e.1@)
            } else {
                None
            },
        },
    decreases s.len() - i,
{
    if i < s.len() {
        assert(s.push(e)[i] == s[i]);
        lemma_lookup_push(s, e, key, i + 1);
    } else {
        assert(s.push(e)[i] == e);
        assert(lookup_from(s.push(e), key, i + 1) is None);
    }
}

/// The position in the palette of the default colour of `tag`.
fn default_color_index(tag: &str) -> (r: usize)
    ensures
        r == byte_sum(vstd::utf8::encode_utf8(tag@)) % 6,
{
    let bytes = tag.as_bytes();
    let mut acc: usize = 0;
    let mut i: usize = 0;
    while i < bytes.len()
        invariant
            i <= bytes.len(),
            bytes@ == vstd::utf8::encode_utf8(tag@),
            acc == byte_sum(bytes@.take(i as int)) % 6,
        decreases bytes.len() - i,
    {
        let b = bytes[i];
        proof {
            assert(bytes@.take(i + 1).drop_last() =~= bytes@.take(i as int));
            lemma_add_mod_noop(byte_sum(bytes@.take(i as int)) as int, b as int, 6);
        }
        acc = (acc + b as usize) % 6;
        i = i + 1;
    }
    assert(bytes@.take(i as int) =~= bytes@);
    acc
}

impl Config {
    /// The default settings: safe mode on, no tag colours, rendered export.
    pub fn new() -> (r: Self)
        ensures
            r.safe_mode,
            r.tag_colors@.len() == 0,
            r.default_export_format@ == "rendered"@,
    {
        Config {
            safe_mode: true,
            tag_colors: Vec::new(),
            default_export_format: String::from_str("rendered"),
        }
    }

    /// The colour of `tag`: the one set for it, or else its default.
    pub fn get_tag_color(&self, tag: &str) -> (r: &str)
        ensures
            r@ == tag_color(self.tag_colors@, tag@),
    {
        let key = tag.to_owned();
        match find_entry(self.tag_colors.as_slice(), &key) {
            Some(i) => self.tag_colors[i].1.as_str(),
            None => Self::default_color_for_tag(tag),
        }
    }

    /// The colour `tag` gets when none is set for it.
    fn default_color_for_tag(tag: &str) -> (r: &'static str)
        ensures
            r@ == default_color(tag@),
    {
        let i = default_color_index(tag);
        if i == 0 {
            "blue"
        } else if i == 1 {
            "green"
        } else if i == 2 {
            "yellow"
        } else if i == 3 {
            "magenta"
        } else if i == 4 {
            "cyan"
        } else {
            "red"
        }
    }

    /// Sets the colour of `tag` to `color`; other tags keep theirs.
    pub fn set_tag_color(&mut self, tag: String, color: String)
        ensures
            final(self).safe_mode == old(self).safe_mode,
            final(self).default_export_format == old(self).default_export_format,
            lookup(final(self).tag_colors@, tag@) == Some(color@),
            forall|t: Seq<char>|
                t != tag@ ==> #[trigger] lookup(final(self).tag_colors@, t) == lookup(
                    old(self).tag_colors@,
                    t,
                ),
    {
        let ghost old_entries = self.tag_colors@;
        let mut out: Vec<(String, String)> = Vec::new();
        out.push((tag.clone(), color));
        proof {
            assert forall|t: Seq<char>| t != tag@ implies #[trigger] lookup(out@, t) == lookup(
                old_entries.subrange(0, 0),
                t,
            ) by {
                assert(lookup_from(out@, t, 1) is None);
            }
        }
        let mut i: usize = 0;
        while i < self.tag_colors.len()
            invariant
                i <= self.tag_colors.len(),
                self.tag_colors@ == old_entries,
                lookup(out@, tag@) == Some(color@),
                forall|t: Seq<char>|
                    t != tag@ ==> #[trigger] lookup(out@, t) == lookup(
                        old_entries.subrange(0, i as int),
                        t,
                    ),
            decreases self.tag_colors.len() - i,
        {
            let ghost before = out@;
            let ghost prefix = old_entries.subrange(0, i as int);
            assert(old_entries.subrange(0, i + 1) =~= prefix.push(old_entries[i as int]));
            if !(self.tag_colors[i].0 == tag) {
                let key = self.tag_colors[i].0.clone();
                let value = self.tag_colors[i].1.clone();
                assert(key@ != tag@);
                let entry = (key, value);
                assert(entry.0@ == old_entries[i as int].0@ && entry.1@ == old_entries[i as int].1@);
                out.push(entry);
                proof {
                    lemma_lookup_push(before, entry, tag@, 0);
                    assert forall|t: Seq<char>| t != tag@ implies #[trigger] lookup(out@, t)
                        == lookup(old_entries.subrange(0, i + 1), t) by {
                        lemma_lookup_push(before, entry, t, 0);
                        lemma_lookup_push(prefix, old_entries[i as int], t, 0);
                        assert(lookup(before, t) == lookup(prefix, t));
                    }
                }
            } else {
                proof {
                    assert(old_entries[i as int].0@ == tag@);
                    assert forall|t: Seq<char>| t != tag@ implies #[trigger] lookup(out@, t)
                        == lookup(old_entries.subrange(0, i + 1), t) by {
                        lemma_lookup_push(prefix, old_entries[i as int], t, 0);
                        assert(lookup(out@, t) == lookup(prefix, t));
                    }
                }
            }
            i = i + 1;
        }
        assert(old_entries.subrange(0, i as int) =~= old_entries);
        self.tag_colors = out;
    }
}

impl Default for Config {
    fn default() -> (r: Self)
        ensures
            r.safe_mode,
            r.tag_colors@.len() == 0,
            r.default_export_format@ == "rendered"@,
    {
        Config::new()
    }
}

} // verus!
