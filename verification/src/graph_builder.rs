//! Serialization of the binary graph file: little-endian, fixed-width
//! 32-bit fields throughout. A 16-byte file header `[0, 0, version,
//! node_count]` is followed by one node per accepted article: a 16-byte
//! node header `[0, 0, 0, link_count]` and `link_count` neighbor offsets.

use vstd::prelude::*;

verus! {

/// The four little-endian bytes of a 32-bit value.
pub open spec fn le_bytes(x: u32) -> Seq<u8> {
    seq![
        (x & 0xff) as u8,
        ((x >> 8) & 0xff) as u8,
        ((x >> 16) & 0xff) as u8,
        ((x >> 24) & 0xff) as u8,
    ]
}

/// The 16-byte file header: two reserved words, the format version, and
/// the node count.
pub open spec fn file_header_bytes(version: u32, node_count: u32) -> Seq<u8> {
    le_bytes(0) + le_bytes(0) + le_bytes(version) + le_bytes(node_count)
}

/// The 16-byte node header: three reserved words and the link count.
pub open spec fn node_header_bytes(link_count: u32) -> Seq<u8> {
    le_bytes(0) + le_bytes(0) + le_bytes(0) + le_bytes(link_count)
}

/// A writer for the binary graph file. The write cursor is the length of
/// the bytes written so far; Pass 2's offset-consistency gate compares it
/// to each node's planned offset.
pub trait GraphBuilder {
    /// The bytes written so far.
    spec fn bytes(&self) -> Seq<u8>;

    /// The format version stamped into the file header.
    spec fn version(&self) -> u32;

    /// The node count stamped into the file header.
    spec fn node_count(&self) -> u32;

    /// Writes the 16-byte file header.
    fn write_file_header(&mut self)
        ensures
            final(self).bytes() == old(self).bytes() + file_header_bytes(
                old(self).version(),
                old(self).node_count(),
            ),
            final(self).version() == old(self).version(),
            final(self).node_count() == old(self).node_count(),
    ;

    /// Writes the 16-byte node header for a node with `num_links` links.
    fn write_node_header(&mut self, num_links: u32)
        ensures
            final(self).bytes() == old(self).bytes() + node_header_bytes(num_links),
            final(self).version() == old(self).version(),
            final(self).node_count() == old(self).node_count(),
    ;

    /// Writes one 32-bit value, little-endian.
    fn write_value(&mut self, value: u32)
        ensures
            final(self).bytes() == old(self).bytes() + le_bytes(value),
            final(self).version() == old(self).version(),
            final(self).node_count() == old(self).node_count(),
    ;

    /// The current write cursor: the number of bytes written so far.
    fn get_current_position(&self) -> (r: u64)
        ensures
            r == self.bytes().len(),
    ;

    /// Makes the bytes written so far durable; writes nothing.
    fn flush_writer(&mut self)
        ensures
            final(self).bytes() == old(self).bytes(),
            final(self).version() == old(self).version(),
            final(self).node_count() == old(self).node_count(),
    ;
}

/// An in-memory writer for the binary graph file; the caller takes the
/// finished bytes with `into_bytes` and makes them durable.
pub struct WikiBinaryGraphBuilder {
    buf: Vec<u8>,
    version: u32,
    node_count: u32,
}

impl WikiBinaryGraphBuilder {
    /// A builder for a file of `count` nodes in the given format version,
    /// with nothing written yet.
    pub fn new(count: u32, version: u32) -> (r: WikiBinaryGraphBuilder)
        ensures
            r.bytes() == Seq::<u8>::empty(),
            r.version() == version,
            r.node_count() == count,
    {
        WikiBinaryGraphBuilder { buf: Vec::new(), version, node_count: count }
    }

    /// The finished file content.
    pub fn into_bytes(self) -> (r: Vec<u8>)
        ensures
            r@ == self.bytes(),
    {
        self.buf
    }
}

impl GraphBuilder for WikiBinaryGraphBuilder {
    closed spec fn bytes(&self) -> Seq<u8> {
        self.buf@
    }

    closed spec fn version(&self) -> u32 {
        self.version
    }

    closed spec fn node_count(&self) -> u32 {
        self.node_count
    }

    fn write_value(&mut self, value: u32) {
        self.buf.push((value & 0xff) as u8);
        self.buf.push(((value >> 8) & 0xff) as u8);
        self.buf.push(((value >> 16) & 0xff) as u8);
        self.buf.push(((value >> 24) & 0xff) as u8);
        proof {
            assert(self.buf@ =~= old(self).buf@ + le_bytes(value));
        }
    }

    fn write_file_header(&mut self) {
        let version = self.version;
        let count = self.node_count;
        self.write_value(0);
        self.write_value(0);
        self.write_value(version);
        self.write_value(count);
        proof {
            assert(self.buf@ =~= old(self).buf@ + file_header_bytes(version, count));
        }
    }

    fn write_node_header(&mut self, num_links: u32) {
        self.write_value(0);
        self.write_value(0);
        self.write_value(0);
        self.write_value(num_links);
        proof {
            assert(self.buf@ =~= old(self).buf@ + node_header_bytes(num_links));
        }
    }

    fn get_current_position(&self) -> (r: u64) {
        self.buf.len() as u64
    }

    fn flush_writer(&mut self) {
    }
}

} // verus!
