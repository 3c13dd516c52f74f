//! The files a program holds.

use vstd::prelude::*;

verus! {

/// The files program `pid` holds, in the order it took them.
#[derive(Debug)]
pub struct Resource {
    pub pid: usize,
    pub files: Vec<usize>,
}

/// `s` with its first `id` taken out; `s` itself when it holds none.
pub open spec fn without_first(s: Seq<usize>, id: usize) -> Seq<usize>
    decreases s.len(),
{
    if s.len() == 0 {
        s
    } else if s[0] == id {
        s.drop_first()
    } else {
        seq![s[0]] + without_first(s.drop_first(), id)
    }
}

proof fn lemma_without_first(s: Seq<usize>, id: usize, i: int)
    requires
        0 <= i < s.len(),
        s[i] == id,
        forall|j: int| 0 <= j < i ==> s[j] != id,
    ensures
        without_first(s, id) == s.remove(i),
    decreases s.len(),
{
    if i > 0 {
        lemma_without_first(s.drop_first(), id, i - 1);
        assert(seq![s[0]] + s.drop_first().remove(i - 1) =~= s.remove(i));
    } else {
        assert(s.drop_first() =~= s.remove(0));
    }
}

proof fn lemma_without_absent(s: Seq<usize>, id: usize)
    requires
        forall|j: int| 0 <= j < s.len() ==> s[j] != id,
    ensures
        without_first(s, id) == s,
    decreases s.len(),
{
    if s.len() > 0 {
        lemma_without_absent(s.drop_first(), id);
        assert(seq![s[0]] + s.drop_first() =~= s);
    }
}


/// Takes the first `id` out of `v`, if there is one.
pub(crate) fn remove_first(v: &mut Vec<usize>, id: usize)
    ensures
        final(v)@ == without_first(old(v)@, id),
{
    let mut i: usize = 0;
    while i < v.len()
        invariant
            i <= v@.len(),
            v@ == old(v)@,
            forall|j: int| 0 <= j < i ==> v@[j] != id,
        decreases v@.len() - i,
    {
        if v[i] == id {
            proof {
                lemma_without_first(v@, id, i as int);
            }
            v.remove(i);
            return;
        }
        i = i + 1;
    }
    proof {
        lemma_without_absent(v@, id);
    }
}

impl Resource {
    /// Program `pid` holding no file.
    pub fn new(pid: usize) -> (r: Self)
        ensures
            r.pid == pid,
            r.files@ == Seq::<usize>::empty(),
    {
        Self { pid, files: Vec::new() }
    }

    /// Records that the program took file `id`.
    pub fn push_file(&mut self, id: usize)
        ensures
            final(self).pid == old(self).pid,
            final(self).files@ == old(self).files@.push(id),
    {
        self.files.push(id);
    }

    /// Records that the program gave file `id` back: its first record
    /// goes.
    pub fn release_file(&mut self, id: usize)
        ensures
            final(self).pid == old(self).pid,
            final(self).files@ == without_first(old(self).files@, id),
    {
        remove_first(&mut self.files, id);
    }
}

/// Taking a file and giving it back leaves the files as they were.
pub proof fn lemma_release_undoes_push(files: Seq<usize>, id: usize)
    requires
        forall|j: int| 0 <= j < files.len() ==> files[j] != id,
    ensures
        without_first(files.push(id), id) == files,
{
    lemma_without_first(files.push(id), id, files.len() as int);
    assert(files.push(id).remove(files.len() as int) =~= files);
}

} // verus!
