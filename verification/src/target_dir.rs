//! A pool of names of target directories for builds that run side by side:
//! a name given back is handed out again before a new one is made.

use vstd::prelude::*;

verus! {

/// The characters of the names that are made: letters, digits, `_` and `-`.
pub open spec fn is_name_char(c: char) -> bool {
    ('a' <= c <= 'z') || ('A' <= c <= 'Z') || ('0' <= c <= '9') || c == '_' || c == '-'
}

/// A new random name of 21 characters from nanoid's URL-safe alphabet.
///
/// `nanoid::format` with the default random source and `nanoid::alphabet::SAFE`
/// draws bytes until it has `size` characters of the alphabet; every
/// masked byte names one of its 64 characters. The contract states the
/// length and the alphabet; which name comes out is chance.
#[verifier::external_body]
fn fresh_name() -> (res: String)
    ensures
        res@.len() == 21,
        forall|i: int| 0 <= i < res@.len() ==> is_name_char(#[trigger] res@[i]),
{
    nanoid::format(nanoid::rngs::default, &nanoid::alphabet::SAFE, 21)
}

/// The names of target directories that are free to use.
pub struct TargetDirPool {
    ready: Vec<String>,
}

impl View for TargetDirPool {
    type V = Seq<Seq<char>>;

    closed spec fn view(&self) -> Seq<Seq<char>> {
        crate::text::views(self.ready@)
    }
}

impl TargetDirPool {
    /// No free names.
    pub fn new() -> (res: TargetDirPool)
        ensures
            res@ == Seq::<Seq<char>>::empty(),
    {
        let res = TargetDirPool { ready: Vec::new() };
        proof {
            assert(res@ =~= Seq::<Seq<char>>::empty());
        }
        res
    }

    /// A name to use: the one given back last, or else a new one.
    pub fn get(&mut self) -> (res: String)
        ensures
            old(self)@.len() > 0 ==> res@ == old(self)@.last() && final(self)@ == old(self)@.drop_last(),
            old(self)@.len() == 0 ==> final(self)@ == old(self)@ && res@.len() == 21 && forall|i: int|
                0 <= i < res@.len() ==> is_name_char(#[trigger] res@[i]),
    {
        match self.ready.pop() {
            Some(name) => {
                proof {
                    assert(self@ =~= old(self)@.drop_last());
                }
                name
            },
            None => fresh_name(),
        }
    }

    /// Gives a name back for the next use.
    pub fn give_back(&mut self, dir_name: String)
        ensures
            final(self)@ == old(self)@.push(dir_name@),
    {
        self.ready.push(dir_name);
        proof {
            assert(self@ =~= old(self)@.push(dir_name@));
        }
    }
}

} // verus!

verus! {

/// A name given back is the next one handed out, and the pool is then as
/// it was before.
pub proof fn lemma_give_back_then_get(pool: Seq<Seq<char>>, name: Seq<char>)
    ensures
        pool.push(name).len() > 0,
        pool.push(name).last() == name,
        pool.push(name).drop_last() == pool,
{
    assert(pool.push(name).drop_last() =~= pool);
}

} // verus!
