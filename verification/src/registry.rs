//! The type registry: which payload decoder is bound to which type tag. It is
//! an explicit table, built at setup and handed to whoever decodes payloads.

use vstd::prelude::*;
use crate::envelope::DecodeError;

verus! {

/// Why a registration was refused.
#[derive(Debug, Clone, Copy, PartialEq, Eq, Structural)]
pub enum RegistryError {
    /// The tag is bound already. The earlier binding stays.
    DuplicateTag,
}

struct Binding<F> {
    tag: String,
    decoder: F,
}

/// A table from type tags to payload decoders. A decoder is any function from
/// payload bytes to a payload, or to `None` where the bytes are no such
/// payload.
pub struct TypeRegistry<F> {
    bindings: Vec<Binding<F>>,
}

/// What a registration does to a table: it binds the tag where the tag is
/// free, and is refused, leaving the table as it was, where the tag is bound.
pub open spec fn registered<F>(bound: Map<Seq<char>, F>, tag: Seq<char>, decoder: F) -> (
    Map<Seq<char>, F>,
    Result<(), RegistryError>,
) {
    if bound.contains_key(tag) {
        (bound, Err(RegistryError::DuplicateTag))
    } else {
        (bound.insert(tag, decoder), Ok(()))
    }
}

spec fn binds<F>(bindings: Seq<Binding<F>>, tag: Seq<char>) -> bool {
    exists|i: int| 0 <= i < bindings.len() && #[trigger] bindings[i].tag@ == tag
}

spec fn binding_at<F>(bindings: Seq<Binding<F>>, tag: Seq<char>) -> int {
    choose|i: int| 0 <= i < bindings.len() && #[trigger] bindings[i].tag@ == tag
}

impl<F> TypeRegistry<F> {
    #[verifier::type_invariant]
    spec fn distinct(&self) -> bool {
        forall|i: int, j: int|
            0 <= i < j < self.bindings@.len() ==> #[trigger] self.bindings@[i].tag@
                != #[trigger] self.bindings@[j].tag@
    }

    /// The table: each bound tag with its decoder.
    pub closed spec fn bound(&self) -> Map<Seq<char>, F> {
        Map::new(
            |tag: Seq<char>| binds(self.bindings@, tag),
            |tag: Seq<char>| self.bindings@[binding_at(self.bindings@, tag)].decoder,
        )
    }

    /// A table with no bindings.
    pub fn new() -> (r: Self)
        ensures
            r.bound() == Map::<Seq<char>, F>::empty(),
    {
        let r = TypeRegistry { bindings: Vec::new() };
        assert(r.bound() =~= Map::<Seq<char>, F>::empty());
        r
    }

    fn find(&self, tag: &String) -> (r: Option<usize>)
        ensures
            match r {
                Some(i) => i < self.bindings@.len() && self.bindings@[i as int].tag@ == tag@,
                None => !binds(self.bindings@, tag@),
            },
    {
        let mut i: usize = 0;
        while i < self.bindings.len()
            invariant
                i <= self.bindings@.len(),
                forall|k: int| 0 <= k < i ==> (#[trigger] self.bindings@[k]).tag@ != tag@,
            decreases self.bindings@.len() - i,
        {
            if self.bindings[i].tag == *tag {
                return Some(i);
            }
            i += 1;
        }
        None
    }

    /// Whether a decoder is bound to `tag`.
    pub fn is_registered(&self, tag: &str) -> (r: bool)
        ensures
            r == self.bound().contains_key(tag@),
    {
        let key = tag.to_owned();
        self.find(&key).is_some()
    }

    /// Binds `decoder` to `tag`. A tag that is bound already keeps its
    /// decoder, and the call fails with `DuplicateTag`.
    pub fn register(&mut self, tag: &str, decoder: F) -> (r: Result<(), RegistryError>)
        ensures
            (final(self).bound(), r) == registered(old(self).bound(), tag@, decoder),
    {
        proof {
            use_type_invariant(&*self);
        }
        let key = tag.to_owned();
        match self.find(&key) {
            Some(_) => Err(RegistryError::DuplicateTag),
            None => {
                let ghost before = self.bindings@;
                let mut bindings: Vec<Binding<F>> = Vec::new();
                std::mem::swap(&mut self.bindings, &mut bindings);
                bindings.push(Binding { tag: key, decoder });
                proof {
                    let after = bindings@;
                    assert forall|i: int, j: int| 0 <= i < j < after.len() implies #[trigger] after[i].tag@
                        != #[trigger] after[j].tag@ by {
                        assert(after[i] == before[i]);
                        if j < before.len() {
                            assert(after[j] == before[j]);
                        }
                    }
                }
                self.bindings = bindings;
                proof {
                    let after = self.bindings@;
                    let last = before.len() as int;
                    assert(after[last].tag@ == tag@);
                    assert forall|t: Seq<char>| binds(after, t) <==> (t == tag@ || binds(
                        before,
                        t,
                    )) by {
                        if binds(before, t) {
                            let k = binding_at(before, t);
                            assert(after[k] == before[k]);
                        }
                        if binds(after, t) && t != tag@ {
                            let k = binding_at(after, t);
                            assert(after[k] == before[k]);
                        }
                    }
                    assert forall|t: Seq<char>| binds(after, t) implies after[binding_at(
                        after,
                        t,
                    )].decoder == (if t == tag@ {
                        decoder
                    } else {
                        before[binding_at(before, t)].decoder
                    }) by {
                        let k = binding_at(after, t);
                        if t == tag@ {
                            assert(k == last);
                        } else {
                            assert(after[k] == before[k]);
                            let k0 = binding_at(before, t);
                            assert(after[k0] == before[k0]);
                            assert(k == k0);
                        }
                    }
                    assert(self.bound() =~= old(self).bound().insert(tag@, decoder));
                }
                Ok(())
            },
        }
    }

    /// Looks up the decoder bound to `tag` and applies it to `bytes`.
    pub fn decode_payload<T>(&self, tag: &str, bytes: &[u8]) -> (r: Result<T, DecodeError>) where
        F: Fn(&[u8]) -> Option<T>,

        requires
            self.bound().contains_key(tag@) ==> call_requires(self.bound()[tag@], (bytes,)),
        ensures
            match r {
                Ok(payload) => self.bound().contains_key(tag@) && call_ensures(
                    self.bound()[tag@],
                    (bytes,),
                    Some(payload),
                ),
                Err(DecodeError::UnknownTag) => !self.bound().contains_key(tag@),
                Err(DecodeError::Malformed) => self.bound().contains_key(tag@) && call_ensures(
                    self.bound()[tag@],
                    (bytes,),
                    None,
                ),
            },
    {
        proof {
            use_type_invariant(self);
        }
        let key = tag.to_owned();
        match self.find(&key) {
            None => Err(DecodeError::UnknownTag),
            Some(i) => {
                proof {
                    let k = binding_at(self.bindings@, tag@);
                    assert(k == i);
                }
                match (self.bindings[i].decoder)(bytes) {
                    Some(payload) => Ok(payload),
                    None => Err(DecodeError::Malformed),
                }
            },
        }
    }
}

} // verus!
