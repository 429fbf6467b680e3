//! Short commands typed in the search bar that open a URL.

use crate::url::Url;
use trie_rs::map::{Trie, TrieBuilder};
use vstd::prelude::*;
use vstd::string::StringSliceAdditionalSpecFns;

verus! {

#[verifier::external_type_specification]
#[verifier::external_body]
#[verifier::reject_recursive_types(Label)]
#[verifier::reject_recursive_types(Value)]
pub struct ExTrie<Label, Value>(Trie<Label, Value>);

#[verifier::external_type_specification]
#[verifier::external_body]
#[verifier::reject_recursive_types(Label)]
#[verifier::reject_recursive_types(Value)]
pub struct ExTrieBuilder<Label, Value>(TrieBuilder<Label, Value>);

/// What a trie builder holds: each pushed key and its value.
pub uninterp spec fn builder_entries(b: TrieBuilder<u8, Url>) -> Map<Seq<u8>, Url>;

/// What a built trie holds.
pub uninterp spec fn trie_entries(t: Trie<u8, Url>) -> Map<Seq<u8>, Url>;

/// Relies on `trie_rs::map::TrieBuilder::new`: an empty builder.
#[verifier::external_body]
fn builder_new() -> (r: TrieBuilder<u8, Url>)
    ensures
        builder_entries(r).dom() == Set::<Seq<u8>>::empty(),
{
    TrieBuilder::new()
}

/// Relies on `trie_rs::map::TrieBuilder::push`: sets the value of `key`,
/// replacing an earlier one (it panics on an empty key).
#[verifier::external_body]
fn builder_push(b: &mut TrieBuilder<u8, Url>, key: Vec<u8>, value: Url)
    requires
        key@.len() > 0,
    ensures
        builder_entries(*final(b)) == builder_entries(*old(b)).insert(key@, value),
{
    b.push(key, value);
}

/// Relies on `trie_rs::map::TrieBuilder::build`: the trie of the pushed entries.
#[verifier::external_body]
fn builder_build(b: TrieBuilder<u8, Url>) -> (r: Trie<u8, Url>)
    ensures
        trie_entries(r) == builder_entries(b),
{
    b.build()
}

/// Relies on `trie_rs::map::Trie::exact_match`: the value of exactly the key
/// `query` (none for an empty query), copied.
#[verifier::external_body]
fn trie_exact(t: &Trie<u8, Url>, query: &[u8]) -> (r: Option<Url>)
    ensures
        r is Some <==> (query@.len() > 0 && trie_entries(*t).contains_key(query@)),
        r matches Some(u) ==> u == trie_entries(*t)[query@],
{
    t.exact_match(query).cloned()
}

/// The known commands, by their text.
pub struct CommandTrie {
    inner: Trie<u8, Url>,
}

pub open spec fn hn_key() -> Seq<u8> {
    seq![104u8, 110u8]
}

pub open spec fn gh_key() -> Seq<u8> {
    seq![103u8, 104u8]
}

impl CommandTrie {
    /// Each command's bytes and the URL it opens.
    pub closed spec fn commands(&self) -> Map<Seq<u8>, Url> {
        trie_entries(self.inner)
    }

    /// The URL that `command` opens, if it is one.
    pub fn lookup(&self, command: &str) -> (r: Option<Url>)
        ensures
            r is Some <==> (command.spec_bytes().len() > 0 && self.commands().contains_key(
                command.spec_bytes(),
            )),
            r matches Some(u) ==> u == self.commands()[command.spec_bytes()],
    {
        trie_exact(&self.inner, command.as_bytes())
    }
}

impl Default for CommandTrie {
    /// `hn` opens Hacker News and `gh` opens GitHub.
    fn default() -> (r: CommandTrie)
        ensures
            r.commands().dom() == set![hn_key(), gh_key()],
            r.commands()[hn_key()] matches Url::Https(d) && d@ == "news.ycombinator.com"@,
            r.commands()[gh_key()] matches Url::Https(d) && d@ == "github.com"@,
    {
        let mut builder = builder_new();
        let hn: Vec<u8> = vec![104u8, 110u8];
        let gh: Vec<u8> = vec![103u8, 104u8];
        assert(hn@ =~= hn_key());
        assert(gh@ =~= gh_key());
        builder_push(&mut builder, hn, Url::Https("news.ycombinator.com".to_owned()));
        builder_push(&mut builder, gh, Url::Https("github.com".to_owned()));
        let inner = builder_build(builder);
        let r = CommandTrie { inner };
        assert(hn_key() != gh_key()) by {
            assert(hn_key()[0] != gh_key()[0]);
        }
        assert(r.commands().dom() =~= set![hn_key(), gh_key()]);
        r
    }
}

} // verus!
