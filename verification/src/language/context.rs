//! The variable context: a read-only name-to-value environment supplied
//! by the caller at evaluation time. Later settings of a name shadow
//! earlier ones.

use crate::language::error::Error;
use crate::language::value::{
    clone_value, lemma_view_entries, view_entries, wf_value, SpecValue, Value,
};
use vstd::prelude::*;
use vstd::string::StringExecFns;

verus! {

/// The value under a name, where the entry set latest wins.
pub open spec fn spec_lookup(
    entries: Seq<(Seq<char>, SpecValue)>,
    name: Seq<char>,
) -> Option<SpecValue>
    decreases entries.len(),
{
    if entries.len() == 0 {
        None
    } else if entries[entries.len() - 1].0 == name {
        Some(entries[entries.len() - 1].1)
    } else {
        spec_lookup(entries.drop_last(), name)
    }
}

/// A name-to-value environment for evaluation.
#[derive(Debug, PartialEq)]
pub struct Context {
    pub entries: Vec<(String, Value)>,
}

impl DeepView for Context {
    type V = Seq<(Seq<char>, SpecValue)>;

    open spec fn deep_view(&self) -> Seq<(Seq<char>, SpecValue)> {
        view_entries(self.entries@)
    }
}

/// Validity of a context: every stored value is valid.
pub open spec fn wf_context(c: &Context) -> bool {
    forall|i: int| 0 <= i < c.entries@.len() ==> wf_value(#[trigger] c.entries@[i].1)
}

impl Context {
    /// An empty context.
    pub fn new() -> (r: Context)
        ensures
            r.deep_view() == Seq::<(Seq<char>, SpecValue)>::empty(),
            wf_context(&r),
    {
        let r = Context { entries: Vec::new() };
        proof {
            lemma_view_entries(r.entries@);
            assert(r.deep_view() =~= Seq::<(Seq<char>, SpecValue)>::empty());
        }
        r
    }

    /// Binds a name to a value; the new binding shadows any earlier one.
    /// Always succeeds.
    pub fn set(&mut self, name: &str, value: Value) -> (r: Result<(), Error>)
        requires
            wf_value(value),
        ensures
            r is Ok,
            final(self).deep_view() == old(self).deep_view().push(
                (name@, value.deep_view()),
            ),
            wf_context(old(self)) ==> wf_context(final(self)),
    {
        let ghost before = self.entries@;
        self.entries.push((String::from_str(name), value));
        proof {
            lemma_view_entries(before);
            lemma_view_entries(self.entries@);
            assert(self.deep_view() =~= view_entries(before).push(
                (name@, value.deep_view()),
            ));
        }
        Ok(())
    }

    /// The value bound to a name, if any; the binding set latest wins.
    pub fn get(&self, name: &str) -> (r: Option<Value>)
        requires
            wf_context(self),
        ensures
            match r {
                Some(v) => spec_lookup(self.deep_view(), name@) == Some(v.deep_view())
                    && wf_value(v),
                None => spec_lookup(self.deep_view(), name@) is None,
            },
    {
        proof {
            lemma_view_entries(self.entries@);
        }
        let mut i: usize = self.entries.len();
        proof {
            assert(self.deep_view().take(i as int) =~= self.deep_view());
        }
        while i > 0
            invariant
                wf_context(self),
                i <= self.entries@.len(),
                self.deep_view().len() == self.entries@.len(),
                forall|j: int|
                    0 <= j < self.entries@.len() ==> #[trigger] self.deep_view()[j] == (
                        self.entries@[j].0@,
                        crate::language::value::view_value(self.entries@[j].1),
                    ),
                spec_lookup(self.deep_view(), name@) == spec_lookup(
                    self.deep_view().take(i as int),
                    name@,
                ),
            decreases i,
        {
            let entry = &self.entries[i - 1];
            let ghost prefix = self.deep_view().take(i as int);
            proof {
                assert(prefix[prefix.len() - 1] == self.deep_view()[i - 1]);
            }
            if crate::language::value::str_eq(entry.0.as_str(), name) {
                return Some(clone_value(&entry.1));
            }
            proof {
                assert(prefix.drop_last() =~= self.deep_view().take(i as int - 1));
            }
            i = i - 1;
        }
        proof {
            assert(self.deep_view().take(0) =~= Seq::<(Seq<char>, SpecValue)>::empty());
        }
        None
    }
}

impl Default for Context {
    /// An empty context.
    fn default() -> (r: Context)
        ensures
            r.deep_view() == Seq::<(Seq<char>, SpecValue)>::empty(),
            wf_context(&r),
    {
        Context::new()
    }
}

} // verus!
