//! The variables that a parse has bound so far.

use vstd::prelude::*;

verus! {

/// The bindings made by the integer fields read so far, in the order in which
/// they were made. A later binding of a name shadows an earlier one.
#[derive(Debug)]
pub struct ParseContext {
    pub variables: Vec<(String, i64)>,
}

/// The mapping that a list of bindings stands for: the last binding of a name
/// is the one that counts.
pub open spec fn bindings_map(bindings: Seq<(String, i64)>) -> Map<Seq<char>, i64>
    decreases bindings.len(),
{
    if bindings.len() == 0 {
        Map::empty()
    } else {
        bindings_map(bindings.drop_last()).insert(bindings.last().0@, bindings.last().1)
    }
}

impl View for ParseContext {
    type V = Map<Seq<char>, i64>;

    open spec fn view(&self) -> Map<Seq<char>, i64> {
        bindings_map(self.variables@)
    }
}

impl ParseContext {
    /// A context in which no variable is bound.
    pub fn new() -> (context: ParseContext)
        ensures
            context@ == Map::<Seq<char>, i64>::empty(),
    {
        ParseContext { variables: Vec::new() }
    }

    /// Binds `key` to `data`, replacing what `key` was bound to before.
    pub fn insert_variable(&mut self, key: String, data: i64)
        ensures
            final(self)@ == old(self)@.insert(key@, data),
    {
        let ghost before = self.variables@;
        self.variables.push((key, data));
        proof {
            assert(self.variables@.drop_last() =~= before);
        }
    }

    /// The value that `key` is bound to, if any.
    pub fn get_variable(&self, key: String) -> (value: Option<i64>)
        ensures
            value == (if self@.contains_key(key@) {
                Some(self@[key@])
            } else {
                None
            }),
    {
        let mut i: usize = self.variables.len();
        proof {
            assert(self.variables@.take(i as int) =~= self.variables@);
        }
        while i > 0
            invariant
                i <= self.variables.len(),
                self@.contains_key(key@) <==> bindings_map(
                    self.variables@.take(i as int),
                ).contains_key(key@),
                self@.contains_key(key@) ==> self@[key@] == bindings_map(
                    self.variables@.take(i as int),
                )[key@],
            decreases i,
        {
            i = i - 1;
            proof {
                let upto = self.variables@.take(i + 1);
                assert(upto.drop_last() =~= self.variables@.take(i as int));
                assert(upto.last() == self.variables@[i as int]);
            }
            if self.variables[i].0 == key {
                return Some(self.variables[i].1);
            }
        }
        proof {
            assert(self.variables@.take(0) =~= Seq::empty());
        }
        None
    }
}

} // verus!
