use vstd::prelude::*;

use crate::byte_copy::ByteCopy;

verus! {

/// Where messages from the host land: a buffer of fixed capacity, the length of the message in
/// it, and whether that message is still waiting to be read.
pub struct Mailbox {
    data: Vec<u8>,
    available: bool,
    len: usize,
}

impl Mailbox {
    pub closed spec fn spec_data(&self) -> Seq<u8> {
        self.data@
    }

    pub closed spec fn spec_available(&self) -> bool {
        self.available
    }

    pub closed spec fn spec_len(&self) -> usize {
        self.len
    }

    /// An empty mailbox for messages of up to `capacity` bytes.
    pub fn new(capacity: usize) -> (r: Mailbox)
        ensures
            r.spec_data() == Seq::new(capacity as nat, |i: int| 0u8),
            !r.spec_available(),
            r.spec_len() == 0,
    {
        let mut data: Vec<u8> = Vec::new();
        let mut i: usize = 0;
        while i < capacity
            invariant
                i <= capacity,
                data@ == Seq::new(i as nat, |j: int| 0u8),
            decreases capacity - i,
        {
            data.push(0);
            i += 1;
        }
        Mailbox { data, available: false, len: 0 }
    }

    /// Takes a message from the host: refused while another waits or when it does not fit;
    /// otherwise it is copied to the front of the buffer, whose other bytes stay as they were.
    pub fn handle_input(&mut self, message: &[u8]) -> (r: bool)
        ensures
            r == (!old(self).spec_available() && message@.len() <= old(self).spec_data().len()),
            r ==> final(self).spec_available() && final(self).spec_len() == message@.len()
                && final(self).spec_data() == message@ + old(self).spec_data().skip(
                message@.len() as int,
            ),
            !r ==> *final(self) == *old(self),
    {
        if self.available || message.len() > self.data.len() {
            return false;
        }
        let n = message.len();
        let mut i: usize = 0;
        let ghost before = self.data@;
        while i < n
            invariant
                i <= n,
                n == message@.len(),
                n <= before.len(),
                self.data@.len() == before.len(),
                self.available == old(self).available,
                self.len == old(self).len,
                forall|j: int| 0 <= j < i ==> self.data@[j] == message@[j],
                forall|j: int| n <= j < before.len() ==> self.data@[j] == before[j],
            decreases n - i,
        {
            self.data.set(i, message[i]);
            i += 1;
        }
        assert(self.data@ == message@ + before.skip(n as int));
        self.available = true;
        self.len = n;
        true
    }

    /// The waiting message, if any: the whole buffer and the message's length. Reading it
    /// empties the mailbox.
    pub fn poll_next(&mut self) -> (r: Option<(Vec<u8>, usize)>)
        ensures
            final(self).spec_data() == old(self).spec_data(),
            final(self).spec_len() == old(self).spec_len(),
            !final(self).spec_available(),
            old(self).spec_available() ==> (r matches Some((d, n)) && d@ == old(self).spec_data()
                && n == old(self).spec_len()),
            !old(self).spec_available() ==> r is None,
    {
        if self.available {
            self.available = false;
            Some((self.data.clone(), self.len))
        } else {
            None
        }
    }

    /// The waiting message, when it fills the buffer exactly; a message of any other length is
    /// read and dropped.
    pub fn poll_exact(&mut self) -> (r: Option<Vec<u8>>)
        ensures
            final(self).spec_data() == old(self).spec_data(),
            final(self).spec_len() == old(self).spec_len(),
            !final(self).spec_available(),
            r is Some <==> old(self).spec_available() && old(self).spec_len() == old(
                self,
            ).spec_data().len(),
            r matches Some(d) ==> d@ == old(self).spec_data(),
    {
        match self.poll_next() {
            Some((data, len)) => {
                if len != data.len() {
                    None
                } else {
                    Some(data)
                }
            },
            None => None,
        }
    }

    /// The value read from the front of the waiting message, where one can be read; the message
    /// is read either way.
    pub fn poll_extract<T: ByteCopy>(&mut self) -> (r: Option<T>)
        requires
            T::spec_lengths_fit(),
            old(self).spec_len() <= old(self).spec_data().len(),
        ensures
            final(self).spec_data() == old(self).spec_data(),
            final(self).spec_len() == old(self).spec_len(),
            !final(self).spec_available(),
            old(self).spec_available() ==> match T::spec_extract(
                old(self).spec_data().take(old(self).spec_len() as int),
            ) {
                Some((v, _)) => r == Some(v),
                None => r is None,
            },
            !old(self).spec_available() ==> r is None,
    {
        match self.poll_next() {
            Some((data, len)) => {
                let (message, _) = data.as_slice().split_at(len);
                assert(message@ == data@.take(len as int));
                match T::extract(message) {
                    Some((value, _)) => Some(value),
                    None => None,
                }
            },
            None => None,
        }
    }
}

/// What a read gives back of a message that the mailbox took: the buffer keeps its size, and its
/// first `len` bytes are the message.
pub proof fn law_message_read_back(before: Mailbox, message: Seq<u8>, after: Mailbox)
    requires
        message.len() <= before.spec_data().len(),
        after.spec_len() == message.len(),
        after.spec_data() == message + before.spec_data().skip(message.len() as int),
    ensures
        after.spec_data().len() == before.spec_data().len(),
        after.spec_len() <= after.spec_data().len(),
        after.spec_data().take(after.spec_len() as int) == message,
{
    assert(after.spec_data().take(after.spec_len() as int) =~= message);
}

} // verus!
