use vstd::prelude::*;
use vstd::string::StringExecFns;
use crate::packet_buffer::{be_u16, name_text, walk_name, DecodeError, PacketBuffer, CAPACITY};
use crate::query_type::{query_type_of, QueryType};

verus! {

/// One entry of a message's question section: a name and the type of record
/// asked for.
#[derive(Debug, Clone, PartialEq, Eq)]
pub struct DnsQuestion {
    pub name: String,
    pub qtype: QueryType,
}

impl DnsQuestion {
    pub fn new(name: String, qtype: QueryType) -> (r: DnsQuestion)
        ensures
            r.name@ == name@,
            r.qtype == qtype,
    {
        DnsQuestion { name, qtype }
    }

    /// Reads a question at the buffer's read position: the name, whose text
    /// is appended to `self.name`, then the type code, then the class code,
    /// which is skipped. On failure neither the question nor the buffer's
    /// position changes.
    pub fn read(&mut self, buffer: &mut PacketBuffer) -> (r: Result<(), DecodeError>)
        ensures
            final(buffer).buf == old(buffer).buf,
            match walk_name(old(buffer).buf@, old(buffer).pos as int, 0) {
                Ok((labels, end)) => if end + 4 <= CAPACITY {
                    &&& r is Ok
                    &&& final(self).name@ == old(self).name@ + name_text(labels)
                    &&& final(self).qtype == query_type_of(
                        be_u16(old(buffer).buf@[end], old(buffer).buf@[end + 1]) as u16)
                    &&& final(buffer).pos == end + 4
                } else {
                    &&& r == Err::<(), DecodeError>(DecodeError::BufferExhausted)
                    &&& *final(self) == *old(self)
                    &&& final(buffer).pos == old(buffer).pos
                },
                Err(e) => {
                    &&& r == Err::<(), DecodeError>(e)
                    &&& *final(self) == *old(self)
                    &&& final(buffer).pos == old(buffer).pos
                },
            },
    {
        let start = buffer.pos;
        let mut text = String::new();
        match buffer.read_domain(&mut text) {
            Ok(()) => {},
            Err(e) => return Err(e),
        }
        let qtype = match buffer.read_u16() {
            Ok(n) => n,
            Err(e) => {
                buffer.pos = start;
                return Err(e);
            },
        };
        match buffer.read_u16() {
            Ok(_) => {},
            Err(e) => {
                buffer.pos = start;
                return Err(e);
            },
        }
        self.name.append(text.as_str());
        self.qtype = QueryType::from_num(qtype);
        Ok(())
    }
}

} // verus!
