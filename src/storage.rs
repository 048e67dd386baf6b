//! A container that holds one value in encoded form, generic over the
//! encoding.
use std::marker::PhantomData;
use vstd::prelude::*;

verus! {

/// Turns values of `T` into bytes and back.
pub trait Serializer<T> {
    fn to_bytes(&self, data: &T) -> Result<Vec<u8>, String>;

    fn from_bytes(&self, bytes: &[u8]) -> Result<T, String>;
}

/// Holds at most one value of `T`, as the bytes that `S` made of it.
pub struct Storage<T, S: Serializer<T>> {
    data: Option<Vec<u8>>,
    serializer: S,
    _marker: PhantomData<T>,
}

impl<T, S: Serializer<T>> Storage<T, S> {
    /// The bytes held, if any.
    pub closed spec fn stored(&self) -> Option<Seq<u8>> {
        match self.data {
            Some(v) => Some(v@),
            None => None,
        }
    }

    /// The encoder the container was made with.
    pub closed spec fn serializer(&self) -> S {
        self.serializer
    }

    /// `r` is a result that encoding `value` with `ser` may give.
    pub open spec fn encodes(ser: S, value: &T, r: Result<Vec<u8>, String>) -> bool {
        call_ensures(S::to_bytes, (&ser, value), r)
    }

    /// `r` is a result that decoding exactly the bytes `bytes` with `ser` may give.
    pub open spec fn decodes(ser: S, bytes: Seq<u8>, r: Result<T, String>) -> bool {
        exists|b: &[u8]| b@ == bytes && call_ensures(S::from_bytes, (&ser, b), r)
    }

    /// An empty container that will encode with `serializer`.
    pub fn new(serializer: S) -> (r: Self)
        ensures
            r.stored() is None,
            r.serializer() == serializer,
    {
        Storage { data: None, serializer, _marker: PhantomData }
    }

    /// Encodes `value` and keeps the bytes in place of what was held. Where
    /// the encoder fails, its error is returned and the container is unchanged.
    pub fn save(&mut self, value: &T) -> (r: Result<(), String>)
        ensures
            final(self).serializer() == old(self).serializer(),
            r is Ok ==> exists|b: Vec<u8>|
                Self::encodes(old(self).serializer(), value, Ok::<Vec<u8>, String>(b))
                    && final(self).stored() == Some(b@),
            r is Err ==> Self::encodes(old(self).serializer(), value, Err::<Vec<u8>, String>(r->Err_0))
                && final(self).stored() == old(self).stored(),
    {
        match self.serializer.to_bytes(value) {
            Ok(bytes) => {
                self.data = Some(bytes);
                Ok(())
            },
            Err(e) => Err(e),
        }
    }

    /// Decodes the value held. Fails with "No data stored" where there is none,
    /// else returns what the decoder gives on exactly the bytes held.
    pub fn load(&self) -> (r: Result<T, String>)
        ensures
            self.stored() is None ==> r is Err && r->Err_0@ == "No data stored"@,
            self.stored() is Some ==> Self::decodes(self.serializer(), self.stored()->Some_0, r),
    {
        match &self.data {
            Some(bytes) => self.serializer.from_bytes(bytes.as_slice()),
            None => Err(String::from_str("No data stored")),
        }
    }

    /// Whether a value is held.
    pub fn has_data(&self) -> (r: bool)
        ensures
            r == self.stored() is Some,
    {
        self.data.is_some()
    }

    /// A load after a successful save gives the saved value back, wherever
    /// the encoder and decoder are inverse on that value: whatever bytes the
    /// encoder may give for it decode to it.
    pub proof fn lemma_load_after_save(s0: Self, s1: Self, value: T, r_load: Result<T, String>)
        requires
            s1.serializer() == s0.serializer(),
            exists|b: Vec<u8>|
                Self::encodes(s0.serializer(), &value, Ok::<Vec<u8>, String>(b))
                    && s1.stored() == Some(b@),
            s1.stored() is Some ==> Self::decodes(s1.serializer(), s1.stored()->Some_0, r_load),
            forall|b: Vec<u8>, r: Result<T, String>|
                Self::encodes(s0.serializer(), &value, Ok::<Vec<u8>, String>(b))
                    && #[trigger] Self::decodes(s0.serializer(), b@, r) ==> r == Ok::<T, String>(value),
        ensures
            r_load == Ok::<T, String>(value),
    {
        let b = choose|b: Vec<u8>|
            Self::encodes(s0.serializer(), &value, Ok::<Vec<u8>, String>(b))
                && s1.stored() == Some(b@);
        assert(Self::decodes(s0.serializer(), b@, r_load));
    }

    /// With an encoder that gives one encoding per value, saving the same
    /// value twice leaves the same bytes.
    pub proof fn lemma_save_twice(s0: Self, s1: Self, s2: Self, value: T)
        requires
            s1.serializer() == s0.serializer(),
            exists|b: Vec<u8>|
                Self::encodes(s0.serializer(), &value, Ok::<Vec<u8>, String>(b))
                    && s1.stored() == Some(b@),
            exists|b: Vec<u8>|
                Self::encodes(s1.serializer(), &value, Ok::<Vec<u8>, String>(b))
                    && s2.stored() == Some(b@),
            forall|b1: Vec<u8>, b2: Vec<u8>|
                #[trigger] Self::encodes(s0.serializer(), &value, Ok::<Vec<u8>, String>(b1))
                    && #[trigger] Self::encodes(s0.serializer(), &value, Ok::<Vec<u8>, String>(b2))
                    ==> b1@ == b2@,
        ensures
            s2.stored() == s1.stored(),
    {
        let b1 = choose|b: Vec<u8>|
            Self::encodes(s0.serializer(), &value, Ok::<Vec<u8>, String>(b))
                && s1.stored() == Some(b@);
        let b2 = choose|b: Vec<u8>|
            Self::encodes(s1.serializer(), &value, Ok::<Vec<u8>, String>(b))
                && s2.stored() == Some(b@);
        assert(b1@ == b2@);
    }
}

} // verus!
