//! Clearing: which trees are dropped, in which order, and when the database is flushed.

use std::collections::VecDeque;

use vstd::prelude::*;

use crate::error::SledStoreError;
use crate::store::SledStore;
use crate::trees;
use crate::trees::{
    has_thread_prefix, messages_thread_tree_name, Thread, SLED_TREE_CONTACTS, SLED_TREE_GROUPS,
    SLED_TREE_PROFILES, SLED_TREE_PROFILE_AVATARS, SLED_TREE_PROFILE_KEYS,
};

verus! {

/// What clearing asks of the database next.
pub enum Action {
    /// Drop the tree with this name, if there is one.
    DropTree(Vec<u8>),
    /// List the names of all trees.
    ListTrees,
    /// Flush what was done to disk.
    Flush,
    /// Nothing: all is cleared.
    Finish,
}

/// How the database answered.
pub enum Event {
    /// Whether there was a tree to drop.
    Dropped(Result<bool, sled::Error>),
    /// The names of all trees.
    Listed(Vec<Vec<u8>>),
    /// How many bytes were flushed.
    Flushed(Result<usize, sled::Error>),
}

/// What is left to do: trees to drop, in this order; then, if `sweep`, every tree that belongs to
/// conversations; then, if `flush`, a flush.
#[verifier::ext_equal]
pub struct ClearingView {
    pub drops: Seq<Seq<u8>>,
    pub sweep: bool,
    pub flush: bool,
}

impl ClearingView {
    /// Whether an answer answers what is asked next.
    pub open spec fn expects(self, event: Event) -> bool {
        match event {
            Event::Dropped(_) => self.drops.len() > 0,
            Event::Listed(_) => self.drops.len() == 0 && self.sweep,
            Event::Flushed(_) => self.drops.len() == 0 && !self.sweep && self.flush,
        }
    }

    /// What is left once the first tree is dropped.
    pub open spec fn after_drop(self) -> ClearingView {
        ClearingView { drops: self.drops.skip(1), ..self }
    }

    /// What is left once the trees have been listed.
    pub open spec fn after_listing(self, names: Seq<Seq<u8>>) -> ClearingView {
        ClearingView { drops: thread_trees(names), sweep: false, ..self }
    }

    /// What is left once the database is flushed.
    pub open spec fn after_flush(self) -> ClearingView {
        ClearingView { flush: false, ..self }
    }
}

/// Those of some names that belong to conversations, in the order given.
pub open spec fn thread_trees(names: Seq<Seq<u8>>) -> Seq<Seq<u8>> {
    names.filter(|name: Seq<u8>| trees::is_thread_tree(name))
}

/// The names, byte by byte.
pub open spec fn names_of(names: Seq<Vec<u8>>) -> Seq<Seq<u8>> {
    names.map_values(|name: Vec<u8>| name@)
}

/// What clearing the profiles has to do.
pub open spec fn profiles_clearing() -> ClearingView {
    ClearingView {
        drops: seq![
            trees::tree_id(SLED_TREE_PROFILES@),
            trees::tree_id(SLED_TREE_PROFILE_KEYS@),
            trees::tree_id(SLED_TREE_PROFILE_AVATARS@),
        ],
        sweep: false,
        flush: true,
    }
}

/// What clearing the contents has to do.
pub open spec fn contents_clearing() -> ClearingView {
    ClearingView {
        drops: seq![trees::tree_id(SLED_TREE_CONTACTS@), trees::tree_id(SLED_TREE_GROUPS@)],
        sweep: true,
        flush: true,
    }
}

/// What clearing the contacts has to do: a flush is not part of it.
pub open spec fn contacts_clearing() -> ClearingView {
    ClearingView {
        drops: seq![trees::tree_id(SLED_TREE_CONTACTS@)],
        sweep: false,
        flush: false,
    }
}

/// What clearing the groups has to do.
pub open spec fn groups_clearing() -> ClearingView {
    ClearingView { drops: seq![trees::tree_id(SLED_TREE_GROUPS@)], sweep: false, flush: true }
}

/// What clearing the messages has to do.
pub open spec fn messages_clearing() -> ClearingView {
    ClearingView { drops: Seq::empty(), sweep: true, flush: true }
}

/// What clearing one conversation has to do.
pub open spec fn thread_clearing(thread: Thread) -> ClearingView {
    ClearingView { drops: seq![trees::tree_id(thread.tree_name())], sweep: false, flush: true }
}

/// Clearing under way.
pub struct Clearing {
    drops: VecDeque<Vec<u8>>,
    sweep: bool,
    flush: bool,
}

impl View for Clearing {
    type V = ClearingView;

    closed spec fn view(&self) -> ClearingView {
        ClearingView { drops: names_of(self.drops@), sweep: self.sweep, flush: self.flush }
    }
}

impl Clearing {
    /// Clearing of the trees with these names.
    fn of(names: &[&str], sweep: bool, flush: bool) -> (clearing: Clearing)
        ensures
            clearing@.drops =~= names@.map_values(|name: &str| trees::tree_id(name@)),
            clearing@.sweep == sweep,
            clearing@.flush == flush,
    {
        let mut drops: VecDeque<Vec<u8>> = VecDeque::new();
        let mut i: usize = 0;
        while i < names.len()
            invariant
                i <= names@.len(),
                drops@.len() == i,
                forall|k: int| 0 <= k < i ==> (#[trigger] drops@[k])@ == trees::tree_id(names@[k]@),
            decreases names@.len() - i,
        {
            drops.push_back(vstd::slice::slice_to_vec(names[i].as_bytes()));
            i = i + 1;
        }
        Clearing { drops, sweep, flush }
    }

    /// What the database is to do next.
    pub fn action(&self) -> (action: Action)
        ensures
            match action {
                Action::DropTree(name) => self@.drops.len() > 0 && name@ == self@.drops[0],
                Action::ListTrees => self@.drops.len() == 0 && self@.sweep,
                Action::Flush => self@.drops.len() == 0 && !self@.sweep && self@.flush,
                Action::Finish => self@.drops.len() == 0 && !self@.sweep && !self@.flush,
            },
    {
        if self.drops.len() > 0 {
            Action::DropTree(vstd::slice::slice_to_vec(self.drops[0].as_slice()))
        } else if self.sweep {
            Action::ListTrees
        } else if self.flush {
            Action::Flush
        } else {
            Action::Finish
        }
    }

    /// Goes on with the database's answer. The first failure ends the clearing: nothing more is
    /// asked of the database after it.
    pub fn resume(self, event: Event) -> (next: Result<Clearing, SledStoreError>)
        requires
            self@.expects(event),
        ensures
            match event {
                Event::Dropped(Ok(_)) => next matches Ok(clearing) && clearing@
                    == self@.after_drop(),
                Event::Dropped(Err(e)) => next == Err::<Clearing, SledStoreError>(
                    SledStoreError::Db(e),
                ),
                Event::Listed(names) => next matches Ok(clearing) && clearing@
                    == self@.after_listing(names_of(names@)),
                Event::Flushed(Ok(_)) => next matches Ok(clearing) && clearing@
                    == self@.after_flush(),
                Event::Flushed(Err(e)) => next == Err::<Clearing, SledStoreError>(
                    SledStoreError::Db(e),
                ),
            },
    {
        let mut drops = self.drops;
        match event {
            Event::Dropped(Ok(_)) => {
                let ghost before = drops@;
                let _ = drops.pop_front();
                assert(names_of(drops@) =~= names_of(before).skip(1));
                Ok(Clearing { drops, sweep: self.sweep, flush: self.flush })
            },
            Event::Listed(names) => {
                Ok(Clearing { drops: keep_thread_trees(names), sweep: false, flush: self.flush })
            },
            Event::Flushed(Ok(_)) => {
                Ok(Clearing { drops, sweep: self.sweep, flush: false })
            },
            Event::Dropped(Err(e)) => Err(SledStoreError::from(e)),
            Event::Flushed(Err(e)) => Err(SledStoreError::from(e)),
        }
    }
}

/// Keeps the names that belong to conversations.
fn keep_thread_trees(names: Vec<Vec<u8>>) -> (kept: VecDeque<Vec<u8>>)
    ensures
        names_of(kept@) == thread_trees(names_of(names@)),
{
    let mut kept: VecDeque<Vec<u8>> = VecDeque::new();
    let mut i: usize = 0;
    let ghost all = names_of(names@);
    let ghost belongs = |name: Seq<u8>| trees::is_thread_tree(name);
    while i < names.len()
        invariant
            i <= names@.len(),
            all == names_of(names@),
            belongs == (|name: Seq<u8>| trees::is_thread_tree(name)),
            names_of(kept@) == all.take(i as int).filter(belongs),
        decreases names@.len() - i,
    {
        let name = &names[i];
        let ghost before = kept@;
        proof {
            assert(all.take(i + 1).drop_last() =~= all.take(i as int));
            assert(all.take(i + 1).last() == name@);
            reveal(Seq::filter);
        }
        if has_thread_prefix(name.as_slice()) {
            kept.push_back(vstd::slice::slice_to_vec(name.as_slice()));
            assert(names_of(kept@) =~= names_of(before).push(name@));
        }
        i = i + 1;
    }
    assert(all.take(i as int) =~= all);
    kept
}

impl<K> SledStore<K> {
    /// Clears the profiles, their keys and their avatars.
    pub fn clear_profiles(&self) -> (clearing: Clearing)
        ensures
            clearing@ == profiles_clearing(),
    {
        Clearing::of(
            &[SLED_TREE_PROFILES, SLED_TREE_PROFILE_KEYS, SLED_TREE_PROFILE_AVATARS],
            false,
            true,
        )
    }

    /// Clears the contacts, the groups and everything that belongs to conversations.
    pub fn clear_contents(&self) -> (clearing: Clearing)
        ensures
            clearing@ == contents_clearing(),
    {
        Clearing::of(&[SLED_TREE_CONTACTS, SLED_TREE_GROUPS], true, true)
    }

    /// Clears the contacts, without a flush.
    pub fn clear_contacts(&self) -> (clearing: Clearing)
        ensures
            clearing@ == contacts_clearing(),
    {
        Clearing::of(&[SLED_TREE_CONTACTS], false, false)
    }

    /// Clears the groups.
    pub fn clear_groups(&self) -> (clearing: Clearing)
        ensures
            clearing@ == groups_clearing(),
    {
        Clearing::of(&[SLED_TREE_GROUPS], false, true)
    }

    /// Clears everything that belongs to conversations.
    pub fn clear_messages(&self) -> (clearing: Clearing)
        ensures
            clearing@ == messages_clearing(),
    {
        Clearing::of(&[], true, true)
    }

    /// Clears the messages of one conversation.
    pub fn clear_thread(&self, thread: &Thread) -> (clearing: Clearing)
        ensures
            clearing@ == thread_clearing(*thread),
    {
        let name = messages_thread_tree_name(thread);
        Clearing::of(&[name.as_str()], false, true)
    }
}

} // verus!
