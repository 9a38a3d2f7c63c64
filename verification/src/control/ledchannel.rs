use vstd::prelude::*;
use candela::Pixel;
use super::mapping::{check_mappings, ChannelMapping, MappingFault};

verus! {

/// The pixel that every buffer holds when it is made: all components zero.
pub const DARK: Pixel = [0, 0, 0, 0];

/// One virtual pixel buffer, the mappings that project ranges of it onto
/// physical strips, and the bit depth to which its colours are cut when they
/// are sent out.
///
/// The buffer's length is fixed when the channel is made. The view of a
/// channel is the content of its buffer, in virtual offset order.
#[derive(Debug, Clone)]
pub struct LEDChannel {
    map: Vec<ChannelMapping>,
    virtual_mem: Vec<Pixel>,
    precision: usize,
}

impl View for LEDChannel {
    type V = Seq<Pixel>;

    closed spec fn view(&self) -> Seq<Pixel> {
        self.virtual_mem@
    }
}

impl LEDChannel {
    /// The channel's mappings, in the order in which they were defined.
    pub closed spec fn layout(&self) -> Seq<ChannelMapping> {
        self.map@
    }

    pub closed spec fn spec_precision(&self) -> usize {
        self.precision
    }

    pub closed spec fn spec_len(&self) -> usize {
        self.virtual_mem.len()
    }

    /// Every mapping lies inside the buffer and no virtual offset is mapped twice.
    pub open spec fn wf(&self) -> bool {
        crate::control::mapping::mappings_valid(self.layout(), self@.len() as int)
    }

    /// The two channels differ at most in the content of their buffers.
    pub open spec fn same_layout(&self, other: &LEDChannel) -> bool {
        &&& self.layout() == other.layout()
        &&& self.spec_precision() == other.spec_precision()
        &&& self@.len() == other@.len()
    }

    /// Makes a channel of `length` dark pixels, or names the first mapping
    /// that is out of range or overlaps an earlier one.
    pub fn new(length: usize, precision: usize, map: Vec<ChannelMapping>) -> (made: Result<
        LEDChannel,
        MappingFault,
    >)
        ensures
            made is Ok <==> crate::control::mapping::mappings_valid(map@, length as int),
            made matches Ok(channel) ==> {
                &&& channel.wf()
                &&& channel.layout() == map@
                &&& channel.spec_precision() == precision
                &&& channel@ == Seq::new(length as nat, |i: int| DARK)
            },
            made matches Err(fault) ==> crate::control::mapping::is_first_fault(
                map@,
                length as int,
                fault,
            ),
    {
        match check_mappings(&map, length) {
            Some(fault) => Err(fault),
            None => {
                let mut virtual_mem: Vec<Pixel> = Vec::new();
                let mut i: usize = 0;
                while i < length
                    invariant
                        i <= length,
                        virtual_mem@ == Seq::new(i as nat, |k: int| DARK),
                    decreases length - i,
                {
                    virtual_mem.push(DARK);
                    i += 1;
                }
                Ok(LEDChannel { map, virtual_mem, precision })
            },
        }
    }

    #[verifier::when_used_as_spec(spec_len)]
    pub fn len(&self) -> (n: usize)
        ensures
            n == self@.len(),
            n == self.spec_len(),
    {
        self.virtual_mem.len()
    }

    #[verifier::when_used_as_spec(spec_precision)]
    pub fn precision(&self) -> (depth: usize)
        ensures
            depth == self.spec_precision(),
    {
        self.precision
    }

    pub fn mappings(&self) -> (map: &Vec<ChannelMapping>)
        ensures
            map@ == self.layout(),
    {
        &self.map
    }

    /// The pixel at virtual offset `offset`.
    pub fn pixel(&self, offset: usize) -> (pixel: Pixel)
        requires
            offset < self@.len(),
        ensures
            pixel == self@[offset as int],
    {
        self.virtual_mem[offset]
    }

    /// Writes `pixel` at virtual offset `offset`.
    pub fn set_pixel(&mut self, offset: usize, pixel: Pixel)
        requires
            offset < old(self)@.len(),
        ensures
            final(self)@ == old(self)@.update(offset as int, pixel),
            final(self).same_layout(old(self)),
    {
        self.virtual_mem[offset] = pixel;
    }

    /// The pixels at the virtual offsets `[start, end)`.
    pub fn range(&self, start: usize, end: usize) -> (pixels: &[Pixel])
        requires
            start <= end <= self@.len(),
        ensures
            pixels@ == self@.subrange(start as int, end as int),
    {
        vstd::slice::slice_subrange(self.virtual_mem.as_slice(), start, end)
    }

    /// The whole buffer, in virtual offset order.
    pub fn as_slice(&self) -> (pixels: &[Pixel])
        ensures
            pixels@ == self@,
    {
        self.virtual_mem.as_slice()
    }

    /// The whole buffer for writing, in virtual offset order. Mappings and
    /// precision stay as they are.
    pub fn as_mut_slice(&mut self) -> (pixels: &mut [Pixel])
        ensures
            pixels@ == old(self)@,
            final(self)@ == final(pixels)@,
            final(self).layout() == old(self).layout(),
            final(self).spec_precision() == old(self).spec_precision(),
    {
        self.virtual_mem.as_mut_slice()
    }

    /// Writes `pixels` at the virtual offsets that begin at `start`.
    pub fn write(&mut self, start: usize, pixels: &[Pixel])
        requires
            start + pixels@.len() <= old(self)@.len(),
        ensures
            final(self).same_layout(old(self)),
            final(self)@ == old(self)@.subrange(0, start as int) + pixels@ + old(self)@.subrange(
                start + pixels@.len(),
                old(self)@.len() as int,
            ),
    {
        let n = pixels.len();
        let total = self.virtual_mem.len();
        let mut i: usize = 0;
        while i < n
            invariant
                n == pixels@.len(),
                i <= n,
                total == self@.len(),
                start + n <= total,
                self.same_layout(old(self)),
                forall|k: int| 0 <= k < start ==> self@[k] == old(self)@[k],
                forall|k: int| start <= k < start + i ==> self@[k] == pixels@[k - start],
                forall|k: int| start + i <= k < self@.len() ==> self@[k] == old(self)@[k],
            decreases n - i,
        {
            self.virtual_mem[start + i] = pixels[i];
            i += 1;
        }
    }

    /// Sets every pixel of the buffer to `pixel`.
    pub fn fill(&mut self, pixel: Pixel)
        ensures
            final(self).same_layout(old(self)),
            final(self)@ == Seq::new(old(self)@.len(), |i: int| pixel),
    {
        let n = self.virtual_mem.len();
        let mut i: usize = 0;
        while i < n
            invariant
                n == self@.len(),
                i <= n,
                self.same_layout(old(self)),
                forall|k: int| 0 <= k < i ==> self@[k] == pixel,
            decreases n - i,
        {
            self.virtual_mem[i] = pixel;
            i += 1;
        }
    }
}

impl vstd::std_specs::core::IndexSpecImpl<usize> for LEDChannel {
    open spec fn index_req(&self, index: &usize) -> bool {
        *index < self@.len()
    }
}

impl std::ops::Index<usize> for LEDChannel {
    type Output = Pixel;

    /// The pixel at virtual offset `index`.
    fn index(&self, index: usize) -> (pixel: &Pixel)
        ensures
            *pixel == self@[index as int],
    {
        &self.virtual_mem[index]
    }
}

impl vstd::std_specs::core::IndexSpecImpl<std::ops::Range<usize>> for LEDChannel {
    open spec fn index_req(&self, index: &std::ops::Range<usize>) -> bool {
        index.start <= index.end <= self@.len()
    }
}

impl std::ops::Index<std::ops::Range<usize>> for LEDChannel {
    type Output = [Pixel];

    /// The pixels at the virtual offsets of `index`.
    fn index(&self, index: std::ops::Range<usize>) -> (pixels: &[Pixel])
        ensures
            pixels@ == self@.subrange(index.start as int, index.end as int),
    {
        vstd::slice::slice_subrange(self.virtual_mem.as_slice(), index.start, index.end)
    }
}

} // verus!
