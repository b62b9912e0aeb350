//! The loader: cuts a firmware image into chunks and frames them.

use crate::error::{Error, ErrorView};
use crate::sfl::frame::{frame_bytes, Cmd, Frame};
use vstd::prelude::*;

verus! {

/// The chunk size that every transfer starts with.
pub const INITIAL_CHUNK_SIZE: u16 = 251;

/// The smallest chunk size; it is not halved further.
pub const MIN_CHUNK_SIZE: u16 = 16;

/// The chunk size after one more halving: 251 drops to 128, then each size
/// above 16 drops to its half, and 16 stays.
pub open spec fn halved(chunk_size: u16) -> u16 {
    if chunk_size == 251 {
        128
    } else if chunk_size > 16 {
        chunk_size / 2
    } else {
        chunk_size
    }
}

/// The chunk size after `times` halvings of the initial size.
pub open spec fn halved_times(times: nat) -> u16
    decreases times,
{
    if times == 0 {
        251
    } else {
        halved(halved_times((times - 1) as nat))
    }
}

/// The chunk sizes that halving can reach from the initial size.
pub open spec fn negotiable(chunk_size: u16) -> bool {
    chunk_size == 251 || chunk_size == 128 || chunk_size == 64 || chunk_size == 32 || chunk_size
        == 16
}

/// A 32-bit value as four bytes, most significant first.
pub open spec fn be32(value: u32) -> Seq<u8> {
    seq![
        (value / 0x100_0000) as u8,
        (value / 0x1_0000 % 256) as u8,
        (value / 0x100 % 256) as u8,
        (value % 256) as u8,
    ]
}

/// Whether an image of `image_len` bytes has any byte in chunk `frame_num`.
pub open spec fn has_chunk(image_len: nat, chunk_size: u16, frame_num: u32) -> bool {
    frame_num * chunk_size < image_len
}

/// The number of chunks that an image of `image_len` bytes is cut into: the
/// quotient by the chunk size, rounded up.
pub open spec fn chunk_count(image_len: nat, chunk_size: u16) -> nat {
    if image_len % (chunk_size as nat) == 0 {
        image_len / (chunk_size as nat)
    } else {
        image_len / (chunk_size as nat) + 1
    }
}

/// The bytes of the image that fall into chunk `frame_num`: up to
/// `chunk_size` bytes from offset `frame_num * chunk_size`, none past the end.
pub open spec fn chunk_data(image: Seq<u8>, chunk_size: u16, frame_num: u32) -> Seq<u8> {
    let start = frame_num * chunk_size;
    let end = if start + chunk_size <= image.len() {
        start + chunk_size
    } else {
        image.len() as int
    };
    if start < image.len() {
        image.subrange(start, end)
    } else {
        Seq::empty()
    }
}

/// The payload of the frame that loads chunk `frame_num`: the address where
/// the chunk goes, then the chunk.
pub open spec fn load_payload(image: Seq<u8>, base: u32, chunk_size: u16, frame_num: u32) -> Seq<
    u8,
> {
    be32((base + frame_num * chunk_size) as u32) + chunk_data(image, chunk_size, frame_num)
}

/// A loader as plain values: the image, the address of its first byte and
/// the chunk size negotiated so far.
pub struct LoaderView {
    pub image: Seq<u8>,
    pub base: u32,
    pub chunk_size: u16,
}

impl LoaderView {
    /// The chunk size is one that halving reaches, and every byte of the
    /// image has a 32-bit load address.
    pub open spec fn wf(self) -> bool {
        &&& negotiable(self.chunk_size)
        &&& self.base + self.image.len() <= 0x1_0000_0000
    }

    /// Whether the image has any byte in chunk `frame_num`.
    pub open spec fn has_chunk(self, frame_num: u32) -> bool {
        has_chunk(self.image.len(), self.chunk_size, frame_num)
    }

    /// The wire bytes of the frame that loads chunk `frame_num`.
    pub open spec fn data_frame(self, frame_num: u32) -> Seq<u8> {
        frame_bytes(
            Cmd::Load,
            load_payload(self.image, self.base, self.chunk_size, frame_num),
        )
    }

    /// The loader after one more halving of the chunk size.
    pub open spec fn halve(self) -> LoaderView {
        LoaderView { chunk_size: halved(self.chunk_size), ..self }
    }
}

/// The wire bytes of the frame that tells the target to jump to `address`.
pub open spec fn boot_frame(address: u32) -> Seq<u8> {
    frame_bytes(Cmd::Jump, be32(address))
}

/// What reading the input file gave, as plain values.
pub open spec fn file_view(file: Result<Vec<u8>, String>) -> Result<Seq<u8>, Seq<char>> {
    match file {
        Ok(image) => Ok(image@),
        Err(why) => Err(why@),
    }
}

/// The loader for what reading the input file gave. A file that could not be
/// read, an empty file and a file that reaches past the end of the 32-bit
/// address space are refused.
pub open spec fn opened(file: Result<Seq<u8>, Seq<char>>, base: u32) -> Result<
    LoaderView,
    ErrorView,
> {
    match file {
        Err(why) => Err(ErrorView::FileIoError(why)),
        Ok(image) => if image.len() == 0 {
            Err(ErrorView::FileIoError("input file was empty"@))
        } else if base + image.len() > 0x1_0000_0000 {
            Err(
                ErrorView::FileIoError(
                    "input file does not fit below the end of the address space"@,
                ),
            )
        } else {
            Ok(LoaderView { image, base, chunk_size: 251 })
        },
    }
}

/// The four bytes of `value`, most significant first.
pub fn be32_bytes(value: u32) -> (bytes: [u8; 4])
    ensures
        bytes@ == be32(value),
{
    let bytes = [
        (value / 0x100_0000) as u8,
        (value / 0x1_0000 % 256) as u8,
        (value / 0x100 % 256) as u8,
        (value % 256) as u8,
    ];
    assert(bytes@ =~= be32(value));
    bytes
}

/// A firmware image on its way to the target, with the address it is loaded
/// at and the chunk size negotiated so far.
#[derive(Debug)]
pub struct SflLoader {
    image: Vec<u8>,
    base: u32,
    chunk_size: u16,
}

impl View for SflLoader {
    type V = LoaderView;

    closed spec fn view(&self) -> LoaderView {
        LoaderView { image: self.image@, base: self.base, chunk_size: self.chunk_size }
    }
}

impl SflLoader {
    /// A loader for `image`, to be loaded at `base`, with the initial chunk
    /// size.
    pub fn new(image: Vec<u8>, base: u32) -> (loader: SflLoader)
        requires
            base + image@.len() <= 0x1_0000_0000,
        ensures
            loader@.wf(),
            loader@ == (LoaderView { image: image@, base, chunk_size: 251 }),
    {
        SflLoader { image, base, chunk_size: INITIAL_CHUNK_SIZE }
    }

    /// A loader for what reading the input file gave. A file that could not
    /// be read, an empty file and a file that reaches past the end of the
    /// 32-bit address space are refused.
    pub fn open(file: Result<Vec<u8>, String>, base: u32) -> (r: Result<SflLoader, Error>)
        ensures
            match opened(file_view(file), base) {
                Ok(loader) => r is Ok && r->Ok_0@ == loader && loader.wf(),
                Err(e) => r is Err && r->Err_0@ == e,
            },
    {
        match file {
            Err(why) => Err(Error::FileIoError(why)),
            Ok(image) => {
                if image.len() == 0 {
                    Err(Error::FileIoError("input file was empty".to_string()))
                } else if image.len() as u64 > 0x1_0000_0000 - base as u64 {
                    let why = "input file does not fit below the end of the address space";
                    Err(Error::FileIoError(why.to_string()))
                } else {
                    Ok(SflLoader::new(image, base))
                }
            },
        }
    }

    /// The number of image bytes that a data frame carries at most.
    pub fn chunk_size(&self) -> (size: u16)
        ensures
            size == self@.chunk_size,
    {
        self.chunk_size
    }

    /// The number of bytes in the image.
    pub fn image_len(&self) -> (len: usize)
        ensures
            len == self@.image.len(),
    {
        self.image.len()
    }

    /// Halves the chunk size: 251 drops to 128, each later size to its half,
    /// and 16 stays.
    pub fn halve_chunk_size(&mut self)
        requires
            old(self)@.wf(),
        ensures
            final(self)@.wf(),
            final(self)@ == old(self)@.halve(),
    {
        if self.chunk_size == 251 {
            self.chunk_size = 128;
        } else if self.chunk_size > 16 {
            self.chunk_size /= 2;
        }
    }

    /// The frame that loads chunk `frame_num` of the image, or `None` when the
    /// image ends before that chunk. The frame carries the chunk's load
    /// address and at most one chunk size of image bytes.
    pub fn encode_data_frame(&self, frame_num: u32) -> (r: Option<Box<Frame>>)
        requires
            self@.wf(),
        ensures
            r is Some <==> self@.has_chunk(frame_num),
            r matches Some(f) ==> {
                &&& f.wf()
                &&& f.intact()
                &&& f.cmd() == Cmd::Load
                &&& f.payload() == load_payload(
                    self@.image,
                    self@.base,
                    self@.chunk_size,
                    frame_num,
                )
                &&& f@ == self@.data_frame(frame_num)
                &&& 4 < f.payload().len() <= 4 + self@.chunk_size
                &&& f@.len() == 4 + f.payload().len()
                &&& f@[0] == f.payload().len()
            },
    {
        let size = self.chunk_size as u64;
        assert(frame_num * size <= 0xffff_ffff * 251) by (nonlinear_arith)
            requires
                frame_num <= 0xffff_ffff,
                size <= 251,
        ;
        let start = frame_num as u64 * size;
        let len = self.image.len() as u64;
        if start >= len {
            return None;
        }
        let end = if start + size <= len {
            start + size
        } else {
            len
        };
        let address = be32_bytes(self.base + start as u32);
        let mut payload: Vec<u8> = Vec::new();
        payload.push(address[0]);
        payload.push(address[1]);
        payload.push(address[2]);
        payload.push(address[3]);
        let ghost head = payload@;
        assert(head =~= be32((self.base + frame_num * self.chunk_size) as u32));
        let mut at = start as usize;
        while at < end as usize
            invariant
                start <= at <= end <= self.image@.len(),
                payload@ == head + self.image@.subrange(start as int, at as int),
            decreases end - at,
        {
            payload.push(self.image[at]);
            at += 1;
            assert(payload@ =~= head + self.image@.subrange(start as int, at as int));
        }
        let f = Frame::new(Cmd::Load, payload.as_slice());
        Some(Box::new(f))
    }

    /// The frame that tells the target to jump to `address`.
    pub fn encode_boot_frame(&self, address: u32) -> (f: Box<Frame>)
        ensures
            f.wf(),
            f.intact(),
            f.cmd() == Cmd::Jump,
            f.payload() == be32(address),
            f@ == boot_frame(address),
            f@.len() == 8,
    {
        let bytes = be32_bytes(address);
        Box::new(Frame::new(Cmd::Jump, bytes.as_slice()))
    }
}

/// Halving walks from 251 through 128, 64 and 32 down to 16 and stays there:
/// these five are the chunk sizes that a transfer can have.
pub proof fn lemma_halving_sequence(times: nat)
    ensures
        halved_times(times) == (if times == 0 {
            251u16
        } else if times == 1 {
            128u16
        } else if times == 2 {
            64u16
        } else if times == 3 {
            32u16
        } else {
            16u16
        }),
        negotiable(halved_times(times)),
    decreases times,
{
    if times > 0 {
        lemma_halving_sequence((times - 1) as nat);
    }
}

/// A chunk size that a transfer can have is reached by at most four
/// halvings.
pub proof fn lemma_negotiable_is_reached(chunk_size: u16)
    requires
        negotiable(chunk_size),
    ensures
        exists|times: nat| times <= 4 && #[trigger] halved_times(times) == chunk_size,
{
    lemma_halving_sequence(0);
    lemma_halving_sequence(1);
    lemma_halving_sequence(2);
    lemma_halving_sequence(3);
    lemma_halving_sequence(4);
}

/// The image has a chunk `frame_num` exactly if `frame_num` is less than the
/// number of chunks: the image's length over the chunk size, rounded up.
pub proof fn lemma_chunk_count(image_len: nat, chunk_size: u16, frame_num: u32)
    requires
        chunk_size > 0,
    ensures
        has_chunk(image_len, chunk_size, frame_num) <==> frame_num < chunk_count(
            image_len,
            chunk_size,
        ),
{
    let c = chunk_size as int;
    let n = frame_num as int;
    let len = image_len as int;
    assert(len == c * (len / c) + len % c && 0 <= len % c < c) by (nonlinear_arith)
        requires
            c > 0,
            len >= 0,
    ;
    let q = len / c;
    if n < q {
        assert(n * c < len) by (nonlinear_arith)
            requires
                n + 1 <= q,
                len >= c * q,
                c > 0,
        ;
    } else if n == q {
        assert(n * c == c * q) by (nonlinear_arith)
            requires
                n == q,
        ;
    } else {
        assert(n * c >= len) by (nonlinear_arith)
            requires
                n >= q + 1,
                len < c * q + c,
                c > 0,
        ;
    }
}

/// An image whose length is a multiple of the chunk size is cut into as many
/// chunks as the quotient says, each of them full; the chunk after the last
/// does not exist.
pub proof fn lemma_exact_multiple(image: Seq<u8>, chunk_size: u16, frame_num: u32)
    requires
        chunk_size > 0,
        image.len() % (chunk_size as nat) == 0,
    ensures
        has_chunk(image.len(), chunk_size, frame_num) <==> frame_num < image.len() / (
        chunk_size as nat),
        has_chunk(image.len(), chunk_size, frame_num) ==> chunk_data(
            image,
            chunk_size,
            frame_num,
        ).len() == chunk_size,
{
    lemma_chunk_count(image.len(), chunk_size, frame_num);
    let c = chunk_size as int;
    let n = frame_num as int;
    let len = image.len() as int;
    if has_chunk(image.len(), chunk_size, frame_num) {
        assert(len == c * (len / c) + len % c) by (nonlinear_arith)
            requires
                c > 0,
        ;
        assert(n * c + c <= len) by (nonlinear_arith)
            requires
                n + 1 <= len / c,
                len == c * (len / c),
                c > 0,
        ;
    }
}

/// A data frame carries the chunk's address and at least one, at most
/// `chunk_size` bytes of the image, and its first byte counts them.
pub proof fn lemma_data_frame_size(loader: LoaderView, frame_num: u32)
    requires
        loader.wf(),
        loader.has_chunk(frame_num),
    ensures
        4 < load_payload(loader.image, loader.base, loader.chunk_size, frame_num).len() <= 4
            + loader.chunk_size,
        loader.data_frame(frame_num).len() == 4 + load_payload(
            loader.image,
            loader.base,
            loader.chunk_size,
            frame_num,
        ).len(),
        loader.data_frame(frame_num)[0] == load_payload(
            loader.image,
            loader.base,
            loader.chunk_size,
            frame_num,
        ).len(),
{
}

/// No loader is made for an empty file.
pub proof fn lemma_empty_file_refused(file: Result<Seq<u8>, Seq<char>>, base: u32)
    ensures
        opened(file, base) matches Ok(loader) ==> loader.wf() && loader.image.len() > 0
            && loader.has_chunk(0),
{
}

/// The image bytes that the first `count` data frames carry, in their order.
pub open spec fn chunks_before(image: Seq<u8>, chunk_size: u16, count: nat) -> Seq<u8>
    decreases count,
{
    if count == 0 || count > u32::MAX {
        Seq::empty()
    } else {
        chunks_before(image, chunk_size, (count - 1) as nat) + chunk_data(
            image,
            chunk_size,
            (count - 1) as u32,
        )
    }
}

/// The data frames carry the image piece by piece: the first `count` of them
/// carry the first `count` chunk sizes of it, or all of it if it is shorter.
pub proof fn lemma_chunks_are_a_prefix(image: Seq<u8>, chunk_size: u16, count: nat)
    requires
        chunk_size > 0,
        count <= u32::MAX,
    ensures
        chunks_before(image, chunk_size, count) == image.take(
            if count * chunk_size <= image.len() {
                count * chunk_size
            } else {
                image.len() as int
            },
        ),
    decreases count,
{
    let c = chunk_size as int;
    let len = image.len() as int;
    if count == 0 {
        assert(image.take(0) =~= Seq::<u8>::empty());
    } else {
        let n = (count - 1) as nat;
        lemma_chunks_are_a_prefix(image, chunk_size, n);
        assert(count * c == n * c + c) by (nonlinear_arith)
            requires
                count == n + 1,
        ;
        assert(n * c >= 0) by (nonlinear_arith)
            requires
                n >= 0,
                c > 0,
        ;
        let end = if count * c <= len {
            count * c
        } else {
            len
        };
        assert(chunks_before(image, chunk_size, count) =~= image.take(end));
    }
}

/// All data frames together carry the image, each byte once and in order.
pub proof fn lemma_chunks_cover_image(loader: LoaderView)
    requires
        loader.wf(),
    ensures
        chunk_count(loader.image.len(), loader.chunk_size) <= u32::MAX,
        chunks_before(
            loader.image,
            loader.chunk_size,
            chunk_count(loader.image.len(), loader.chunk_size),
        ) == loader.image,
{
    let image = loader.image;
    let c = loader.chunk_size as int;
    let len = image.len() as int;
    let count = chunk_count(image.len(), loader.chunk_size);
    assert(len == c * (len / c) + len % c && 0 <= len % c < c && 16 * (len / c) <= len)
        by (nonlinear_arith)
        requires
            c >= 16,
            len >= 0,
    ;
    assert(count * c >= len) by (nonlinear_arith)
        requires
            len == c * (len / c) + len % c,
            0 <= len % c < c,
            count == (if len % c == 0 {
                len / c
            } else {
                len / c + 1
            }),
    ;
    lemma_chunks_are_a_prefix(image, loader.chunk_size, count);
    assert(image.take(len) =~= image);
}

} // verus!
