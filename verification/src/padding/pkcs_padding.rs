use vstd::prelude::*;
use vstd::slice::slice_to_vec;

verus! {

/// PKCS padding for a block size given as a number. The padding byte is the
/// number of appended bytes, reduced modulo 256.
#[derive(Debug)]
pub struct PKCSPadding {
    pub block_size: usize,
}

impl PKCSPadding {
    pub fn new(block_size: usize) -> (r: PKCSPadding)
        ensures
            r.block_size == block_size,
    {
        PKCSPadding { block_size }
    }

    /// The number of bytes that `pad` appends to a message of `len` bytes.
    pub open spec fn pad_len(&self, len: nat) -> nat {
        (self.block_size - len % (self.block_size as nat)) as nat
    }

    /// The padded form of `data`.
    pub open spec fn spec_pad(&self, data: Seq<u8>) -> Seq<u8> {
        let n = self.pad_len(data.len());
        data + Seq::new(n, |i: int| (n % 256) as u8)
    }

    /// Pads `data` up to the next multiple of the block size, by at least one
    /// byte.
    pub fn pad(&self, data: &[u8]) -> (r: Vec<u8>)
        requires
            self.block_size > 0,
        ensures
            r@ == self.spec_pad(data@),
    {
        let mut padded_data = slice_to_vec(data);
        let pad_len = self.block_size - (data.len() % self.block_size);
        let fill: u8 = (pad_len % 256) as u8;
        let mut i: usize = 0;
        while i < pad_len
            invariant
                i <= pad_len,
                pad_len == self.pad_len(data@.len()),
                fill == (pad_len % 256) as u8,
                padded_data@ == data@ + Seq::new(i as nat, |k: int| fill),
            decreases pad_len - i,
        {
            padded_data.push(fill);
            i += 1;
            assert(padded_data@ =~= data@ + Seq::new(i as nat, |k: int| fill));
        }
        assert(padded_data@ =~= self.spec_pad(data@));
        padded_data
    }
}

} // verus!
