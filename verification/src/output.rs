//! Where the rendered files go.
use vstd::prelude::*;

verus! {

/// Why a file could not be written.
pub struct WriteError {
    pub message: String,
}

/// Receives each rendered file: its path, relative to the output
/// directory, and its content.
pub trait OutputWriter {
    /// Whether this writer keeps a record of what it accepted (see
    /// `received`). A writer that says nothing keeps none.
    open spec fn records_writes() -> bool {
        false
    }

    /// The files this writer has accepted, as (path, content), in the
    /// order they were written.
    open spec fn received(&self) -> Seq<(Seq<char>, Seq<char>)> {
        Seq::empty()
    }

    /// The writes this writer has refused, as (path, content, error), in
    /// order.
    open spec fn refused(&self) -> Seq<(Seq<char>, Seq<char>, WriteError)> {
        Seq::empty()
    }

    /// Writes one file. For a writer that keeps a record, a write that
    /// succeeds is received, and one that fails is refused with the error
    /// it returns.
    fn write(&mut self, path: &str, content: &str) -> (r: Result<(), WriteError>)
        ensures
            Self::records_writes() ==> (r is Ok ==> final(self).received() == old(self).received().push((path@, content@))
                && final(self).refused() == old(self).refused()),
            Self::records_writes() ==> (r matches Err(e) ==> final(self).received() == old(self).received()
                && final(self).refused() == old(self).refused().push((path@, content@, e))),
    ;
}

/// The files a sequence of writes leaves: a later write to a path
/// replaces an earlier one.
pub open spec fn written_files(log: Seq<(Seq<char>, Seq<char>)>) -> Map<Seq<char>, Seq<char>>
    decreases log.len(),
{
    if log.len() == 0 {
        Map::empty()
    } else {
        written_files(log.drop_last()).insert(log.last().0, log.last().1)
    }
}

/// After a sequence of writes, a path holds what the last write to it
/// wrote, and only written paths are held.
pub proof fn law_last_write_is_read_back(log: Seq<(Seq<char>, Seq<char>)>, i: int)
    requires
        0 <= i < log.len(),
        forall|j: int| i < j < log.len() ==> log[j].0 != log[i].0,
    ensures
        written_files(log).contains_key(log[i].0),
        written_files(log)[log[i].0] == log[i].1,
    decreases log.len(),
{
    if i < log.len() - 1 {
        law_last_write_is_read_back(log.drop_last(), i);
        assert(log.drop_last()[i] == log[i]);
        assert(log.last().0 != log[i].0);
    }
}

/// Only written paths are held.
pub proof fn law_only_written_paths_are_held(log: Seq<(Seq<char>, Seq<char>)>, p: Seq<char>)
    requires
        written_files(log).contains_key(p),
    ensures
        exists|j: int| 0 <= j < log.len() && log[j].0 == p,
    decreases log.len(),
{
    if log.last().0 != p {
        law_only_written_paths_are_held(log.drop_last(), p);
        let j = choose|j: int| 0 <= j < log.drop_last().len() && log.drop_last()[j].0 == p;
        assert(log[j].0 == p);
    }
}

/// The files held by a list of (path, content) entries: a later entry for
/// a path replaces an earlier one.
pub open spec fn files_of(entries: Seq<(String, String)>) -> Map<Seq<char>, Seq<char>>
    decreases entries.len(),
{
    if entries.len() == 0 {
        Map::empty()
    } else {
        files_of(entries.drop_last()).insert(entries.last().0@, entries.last().1@)
    }
}

/// No path occurs twice among the entries.
pub open spec fn paths_distinct(entries: Seq<(String, String)>) -> bool {
    forall|i: int, j: int| 0 <= i < j < entries.len() ==> entries[i].0@ != entries[j].0@
}

proof fn lemma_files_of(entries: Seq<(String, String)>)
    requires
        paths_distinct(entries),
    ensures
        forall|p: Seq<char>|
            #[trigger] files_of(entries).contains_key(p) <==> exists|i: int|
                0 <= i < entries.len() && entries[i].0@ == p,
        forall|i: int| 0 <= i < entries.len() ==> files_of(entries)[#[trigger] entries[i].0@] == entries[i].1@,
    decreases entries.len(),
{
    if entries.len() > 0 {
        let front = entries.drop_last();
        lemma_files_of(front);
        assert forall|p: Seq<char>| #[trigger] files_of(entries).contains_key(p) <==> exists|i: int|
            0 <= i < entries.len() && entries[i].0@ == p by {
            if files_of(front).contains_key(p) {
                let i = choose|i: int| 0 <= i < front.len() && front[i].0@ == p;
                assert(entries[i].0@ == p);
            }
            if exists|i: int| 0 <= i < entries.len() && entries[i].0@ == p {
                let i = choose|i: int| 0 <= i < entries.len() && entries[i].0@ == p;
                if i < entries.len() - 1 {
                    assert(front[i].0@ == p);
                }
            }
        }
        assert forall|i: int| 0 <= i < entries.len() implies files_of(entries)[#[trigger] entries[i].0@] == entries[i].1@ by {
            if i < entries.len() - 1 {
                assert(front[i] == entries[i]);
                assert(entries[i].0@ != entries.last().0@);
            }
        }
    }
}

/// Keeps every written file in memory, as written.
pub struct MemoryWriter {
    contents: Vec<(String, String)>,
    log: Ghost<Seq<(Seq<char>, Seq<char>)>>,
}

impl View for MemoryWriter {
    type V = Map<Seq<char>, Seq<char>>;

    closed spec fn view(&self) -> Map<Seq<char>, Seq<char>> {
        files_of(self.contents@)
    }
}

impl MemoryWriter {
    #[verifier::type_invariant]
    closed spec fn inv(self) -> bool {
        &&& paths_distinct(self.contents@)
        &&& files_of(self.contents@) == written_files(self.log@)
    }

    pub fn new() -> (r: Self)
        ensures
            r@ == Map::<Seq<char>, Seq<char>>::empty(),
            r.received() == Seq::<(Seq<char>, Seq<char>)>::empty(),
    {
        MemoryWriter { contents: Vec::new(), log: Ghost(Seq::empty()) }
    }

    /// Every file written so far, each path once, with its last content.
    pub fn get_all(&self) -> (r: Vec<(String, String)>)
        ensures
            paths_distinct(r@),
            files_of(r@) == self@,
            self@ == written_files(self.received()),
    {
        proof {
            use_type_invariant(self);
        }
        let mut r: Vec<(String, String)> = Vec::new();
        let mut i: usize = 0;
        while i < self.contents.len()
            invariant
                i <= self.contents.len(),
                r@ == self.contents@.take(i as int),
            decreases self.contents.len() - i,
        {
            let path = self.contents[i].0.clone();
            let content = self.contents[i].1.clone();
            r.push((path, content));
            assert(r@ =~= self.contents@.take(i + 1));
            i += 1;
        }
        assert(r@ =~= self.contents@);
        r
    }
}

impl OutputWriter for MemoryWriter {
    open spec fn records_writes() -> bool {
        true
    }

    closed spec fn received(&self) -> Seq<(Seq<char>, Seq<char>)> {
        self.log@
    }

    /// Keeps `content` as the file at `path`, replacing what was written
    /// there before.
    fn write(&mut self, path: &str, content: &str) -> (r: Result<(), WriteError>)
        ensures
            r is Ok,
            final(self)@ == old(self)@.insert(path@, content@),
            final(self)@ == written_files(final(self).received()),
    {
        proof {
            use_type_invariant(&*self);
        }
        let ghost before = self.contents@;
        let mut i: usize = 0;
        let mut found = false;
        while i < self.contents.len() && !found
            invariant
                i <= self.contents.len(),
                self.contents@ == before,
                found ==> i < before.len() && before[i as int].0@ == path@,
                forall|j: int| 0 <= j < i ==> before[j].0@ != path@,
            decreases self.contents.len() - i, if found { 0nat } else { 1nat },
        {
            if crate::text::str_eq(self.contents[i].0.as_str(), path) {
                found = true;
            } else {
                i += 1;
            }
        }
        let entry = (crate::text::owned(path), crate::text::owned(content));
        let ghost old_log = self.log@;
        let mut taken = MemoryWriter::new();
        std::mem::swap(&mut taken, self);
        let MemoryWriter { contents: mut contents, log: _ } = taken;
        if found {
            contents.set(i, entry);
        } else {
            contents.push(entry);
        }
        proof {
            let after = contents@;
            assert(paths_distinct(after)) by {
                assert forall|a: int, b: int| 0 <= a < b < after.len() implies after[a].0@ != after[b].0@ by {
                    if !found && b == before.len() {
                        assert(before[a].0@ != path@);
                    }
                }
            }
            lemma_files_of(before);
            lemma_files_of(after);
            assert forall|p: Seq<char>| files_of(after).contains_key(p) == files_of(before).insert(path@, content@).contains_key(p) by {
                if files_of(after).contains_key(p) {
                    let k = choose|k: int| 0 <= k < after.len() && after[k].0@ == p;
                    if p != path@ {
                        assert(before[k].0@ == p);
                    }
                }
                if files_of(before).contains_key(p) {
                    let k = choose|k: int| 0 <= k < before.len() && before[k].0@ == p;
                    if p != path@ {
                        assert(after[k].0@ == p);
                    }
                }
                if p == path@ {
                    if found {
                        assert(after[i as int].0@ == p);
                    } else {
                        assert(after[before.len() as int].0@ == p);
                    }
                }
            }
            assert forall|p: Seq<char>| #[trigger] files_of(after).contains_key(p) implies files_of(after)[p] == files_of(before).insert(path@, content@)[p] by {
                let k = choose|k: int| 0 <= k < after.len() && after[k].0@ == p;
                if p != path@ {
                    assert(before[k].0@ == p);
                    assert(files_of(before)[before[k].0@] == before[k].1@);
                }
            }
            assert(files_of(after) =~= files_of(before).insert(path@, content@));
        }
        let ghost log = old_log.push((path@, content@));
        assert(log.drop_last() =~= old_log);
        *self = MemoryWriter { contents, log: Ghost(log) };
        Ok(())
    }
}

} // verus!
