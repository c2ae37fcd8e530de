//! Fixed-capacity table of stored phone numbers, looked up by index or by
//! exact match.

use vstd::prelude::*;
use crate::constants::MAX_PHONE_LENGTH;
use vstd::string::StringSliceAdditionalSpecFns;
use crate::custom_strings::str_eq;

verus! {

/// Most numbers the book can hold.
pub const MAX_PHONE_COUNT: usize = 8;

/// Fixed-capacity phone book: the first `count` slots hold one number
/// each, every later slot is empty.
pub struct PhoneBook {
    phones: Vec<Option<String>>,
    count: usize,
}

impl PhoneBook {
    /// The stored numbers, in insertion order.
    pub closed spec fn numbers(self) -> Seq<Seq<char>> {
        Seq::new(self.count as nat, |i: int| self.phones@[i].unwrap()@)
    }

    pub closed spec fn wf(self) -> bool {
        &&& self.phones@.len() == MAX_PHONE_COUNT
        &&& self.count <= MAX_PHONE_COUNT
        &&& forall|i: int|
            0 <= i < MAX_PHONE_COUNT ==> ((#[trigger] self.phones@[i]) is Some <==> i
                < self.count)
    }

    /// A number with these characters is already stored.
    pub open spec fn spec_contains(self, number: Seq<char>) -> bool {
        exists|i: int| 0 <= i < self.numbers().len() && #[trigger] self.numbers()[i] == number
    }

    pub fn new() -> (r: Self)
        ensures
            r.wf(),
            r.numbers() =~= Seq::<Seq<char>>::empty(),
    {
        let mut phones: Vec<Option<String>> = Vec::new();
        let mut i: usize = 0;
        while i < MAX_PHONE_COUNT
            invariant
                i <= MAX_PHONE_COUNT,
                phones@.len() == i,
                forall|k: int| 0 <= k < i ==> (#[trigger] phones@[k]) is None,
            decreases MAX_PHONE_COUNT - i,
        {
            phones.push(None);
            i = i + 1;
        }
        PhoneBook { phones, count: 0 }
    }

    /// Store a number.  Fails, leaving the book unchanged, when the book
    /// is full, the number is too long (in bytes), or it is already
    /// stored; each failure names its reason.
    pub fn add_number(&mut self, number: &str) -> (r: Result<(), &'static str>)
        requires
            old(self).wf(),
            number.spec_bytes().len() <= usize::MAX,
        ensures
            final(self).wf(),
            r is Ok <==> (old(self).numbers().len() < MAX_PHONE_COUNT
                && number.spec_bytes().len() < MAX_PHONE_LENGTH && !old(self).spec_contains(
                number@,
            )),
            r is Ok ==> final(self).numbers() =~= old(self).numbers().push(number@),
            r is Err ==> *final(self) == *old(self),
            old(self).numbers().len() >= MAX_PHONE_COUNT ==> (r matches Err(m) && m@
                == "Phone book full"@),
            (old(self).numbers().len() < MAX_PHONE_COUNT && number.spec_bytes().len()
                >= MAX_PHONE_LENGTH) ==> (r matches Err(m) && m@ == "Phone number too long"@),
            (old(self).numbers().len() < MAX_PHONE_COUNT && number.spec_bytes().len()
                < MAX_PHONE_LENGTH && old(self).spec_contains(number@)) ==> (r matches Err(m)
                && m@ == "Phone number already exists"@),
    {
        if self.count >= MAX_PHONE_COUNT {
            return Err("Phone book full");
        }
        if number.len() >= MAX_PHONE_LENGTH {
            return Err("Phone number too long");
        }
        if self.contains(number) {
            return Err("Phone number already exists");
        }
        let stored: String = number.to_owned();
        let ghost before = self.phones@;
        self.phones[self.count] = Some(stored);
        self.count = self.count + 1;
        proof {
            assert(self.numbers() =~= old(self).numbers().push(number@));
        }
        Ok(())
    }

    /// The first stored number, if any.
    pub fn get_first(&self) -> (r: Option<&str>)
        requires
            self.wf(),
        ensures
            r is Some <==> self.numbers().len() > 0,
            r matches Some(s) ==> s@ == self.numbers()[0],
    {
        self.get(0)
    }

    /// The stored number at `index`, if one exists.
    pub fn get(&self, index: usize) -> (r: Option<&str>)
        requires
            self.wf(),
        ensures
            r is Some <==> index < self.numbers().len(),
            r matches Some(s) ==> s@ == self.numbers()[index as int],
    {
        if index < self.count {
            match &self.phones[index] {
                Some(s) => Some(s.as_str()),
                None => None,
            }
        } else {
            None
        }
    }

    /// Whether this exact number is already stored.
    pub fn contains(&self, number: &str) -> (r: bool)
        requires
            self.wf(),
        ensures
            r == self.spec_contains(number@),
    {
        let mut i: usize = 0;
        while i < self.count
            invariant
                self.wf(),
                i <= self.count,
                forall|k: int| 0 <= k < i ==> #[trigger] self.numbers()[k] != number@,
            decreases self.count - i,
        {
            match &self.phones[i] {
                Some(s) => {
                    proof {
                        assert(self.numbers()[i as int] == (*s)@);
                    }
                    if str_eq(s.as_str(), number) {
                        return true;
                    }
                },
                None => (),
            }
            i = i + 1;
        }
        false
    }
}

} // verus!
