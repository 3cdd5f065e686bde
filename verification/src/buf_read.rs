//! Reading delimited chunks out of a buffered byte source.

use vstd::prelude::*;
use vstd::utf8::*;

use crate::error::{ErrorKind, IoError};

verus! {

/// The number of bytes a delimited read takes out of `s`: everything up to and
/// including the first `delim`, or all of `s` when `delim` does not occur.
pub open spec fn chunk_len(s: Seq<u8>, delim: u8) -> nat
    decreases s.len(),
{
    if s.len() == 0 {
        0
    } else if s[0] == delim {
        1
    } else {
        1 + chunk_len(s.drop_first(), delim)
    }
}

/// `r` is the index of the first occurrence of `needle` in `hay`, or `None` when it
/// does not occur.
pub open spec fn is_first_index(hay: Seq<u8>, needle: u8, r: Option<usize>) -> bool {
    match r {
        Some(i) => i < hay.len() && hay[i as int] == needle && forall|j: int|
            0 <= j < i ==> hay[j] != needle,
        None => forall|j: int| 0 <= j < hay.len() ==> hay[j] != needle,
    }
}

/// Calls `memchr::memchr`, which returns the index of the first occurrence of
/// `needle` in `haystack`, or `None` if there is none; the contract says exactly that.
#[verifier::external_body]
fn find_byte(needle: u8, haystack: &[u8]) -> (r: Option<usize>)
    ensures
        is_first_index(haystack@, needle, r),
{
    memchr::memchr(needle, haystack)
}

proof fn lemma_chunk_len_found(s: Seq<u8>, delim: u8, i: int)
    requires
        0 <= i < s.len(),
        s[i] == delim,
        forall|j: int| 0 <= j < i ==> s[j] != delim,
    ensures
        chunk_len(s, delim) == i + 1,
    decreases i,
{
    if i > 0 {
        lemma_chunk_len_found(s.drop_first(), delim, i - 1);
    }
}

proof fn lemma_chunk_len_absent(s: Seq<u8>, delim: u8)
    requires
        forall|j: int| 0 <= j < s.len() ==> s[j] != delim,
    ensures
        chunk_len(s, delim) == s.len(),
    decreases s.len(),
{
    if s.len() > 0 {
        lemma_chunk_len_absent(s.drop_first(), delim);
    }
}

/// One round of a delimited read over the bytes `available` in the reader's buffer.
///
/// Appends to `buf` everything up to and including the first `delim`, or all of
/// `available` when there is none, and adds the count to `read`. Returns the count,
/// which the caller consumes from the reader, and `Some(total)` when the read is over
/// (the delimiter was found or the reader is at its end), in which case `read` is
/// reset to zero and `total` is what it had reached.
pub fn read_until_step(delim: u8, available: &[u8], buf: &mut Vec<u8>, read: &mut usize) -> (res: (
    usize,
    Option<usize>,
))
    requires
        old(buf)@.len() + available@.len() <= usize::MAX,
        *old(read) + available@.len() <= usize::MAX,
    ensures
        res.0 == chunk_len(available@, delim),
        res.0 <= available@.len(),
        final(buf)@ == old(buf)@ + available@.take(res.0 as int),
        ({
            let done = res.0 == 0 || available@[res.0 - 1] == delim;
            &&& done ==> res.1 == Some((*old(read) + res.0) as usize) && *final(read) == 0
            &&& !done ==> res.1.is_none() && *final(read) == *old(read) + res.0
        }),
{
    proof {
        lemma_chunk_len_le(available@, delim);
    }
    let used: usize;
    match find_byte(delim, available) {
        Some(i) => {
            proof {
                lemma_chunk_len_found(available@, delim, i as int);
            }
            used = i + 1;
        },
        None => {
            proof {
                lemma_chunk_len_absent(available@, delim);
            }
            used = available.len();
        },
    }
    buf.extend_from_slice(&available[0..used]);
    proof {
        assert(buf@ =~= old(buf)@ + available@.take(used as int));
    }
    *read = *read + used;
    if used == 0 || available[used - 1] == delim {
        let total = *read;
        *read = 0;
        (used, Some(total))
    } else {
        (used, None)
    }
}


/// `s` with one trailing `'\n'` removed, and then one trailing `'\r'` if the line
/// ended in `"\r\n"`.
pub open spec fn strip_line_end(s: Seq<char>) -> Seq<char> {
    if s.len() > 0 && s.last() == '\n' {
        let t = s.drop_last();
        if t.len() > 0 && t.last() == '\r' {
            t.drop_last()
        } else {
            t
        }
    } else {
        s
    }
}

/// `b` with one trailing `delim` removed.
pub open spec fn strip_delim(b: Seq<u8>, delim: u8) -> Seq<u8> {
    if b.len() > 0 && b.last() == delim {
        b.drop_last()
    } else {
        b
    }
}

/// Calls `std::str::from_utf8`, which returns `Ok` exactly when `bytes` is valid
/// UTF-8; the contract says that the answer is that validity.
#[verifier::external_body]
fn is_valid_utf8(bytes: &[u8]) -> (r: bool)
    ensures
        r == valid_utf8(bytes@),
{
    std::str::from_utf8(bytes).is_ok()
}

/// Calls `String::from_utf8` on bytes that are valid UTF-8; the contract says that
/// the string holds the characters those bytes encode.
#[verifier::external_body]
fn string_from_utf8(bytes: Vec<u8>) -> (s: String)
    requires
        valid_utf8(bytes@),
    ensures
        s@ == decode_utf8(bytes@),
{
    match String::from_utf8(bytes) {
        Ok(s) => s,
        Err(_) => String::new(),
    }
}

/// Calls `String::pop`, which removes and returns the last character, or returns
/// `None` and leaves the string as it is when it is empty.
#[verifier::external_body]
fn string_pop(s: &mut String) -> (c: Option<char>)
    ensures
        match c {
            Some(ch) => old(s)@.len() > 0 && ch == old(s)@.last() && final(s)@ == old(s)@.drop_last(),
            None => old(s)@.len() == 0 && final(s)@ == old(s)@,
        },
{
    s.pop()
}

/// Calls `String::push`, which appends one character.
#[verifier::external_body]
fn string_push(s: &mut String, c: char)
    ensures
        final(s)@ == old(s)@.push(c),
{
    s.push(c)
}

/// Removes a trailing `"\n"` or `"\r\n"` from `line`.
pub fn trim_line_end(line: &mut String)
    ensures
        final(line)@ == strip_line_end(old(line)@),
{
    match string_pop(line) {
        Some(c) => {
            if c == '\n' {
                match string_pop(line) {
                    Some(c2) => {
                        if c2 != '\r' {
                            string_push(line, c2);
                            assert(line@ =~= old(line)@.drop_last());
                        }
                    },
                    None => {},
                }
            } else {
                string_push(line, c);
                assert(line@ =~= old(line)@);
            }
        },
        None => {},
    }
}

/// The bytes that UTF-8 encodes `s` as.
fn string_bytes(s: &String) -> (b: Vec<u8>)
    ensures
        b@ == encode_utf8(s@),
{
    let mut b: Vec<u8> = Vec::new();
    b.extend_from_slice(s.as_str().as_bytes());
    assert(b@ =~= encode_utf8(s@));
    b
}

/// What a line read does once the delimited read that it started has returned
/// `ret`, with `bytes` holding the caller's text, as bytes, in its first `start`
/// bytes, followed by what has been read; `buf` is empty meanwhile.
///
/// When `bytes` is valid UTF-8, `buf` gets its text and the reader's result is passed
/// on. Otherwise the result is `InvalidData`, or the reader's own error if it
/// reported one, and `buf` gets back the caller's text alone: the bytes read are
/// dropped. Either way `bytes` is left empty.
pub fn finish_read_line<E>(ret: Result<usize, E>, buf: &mut String, bytes: &mut Vec<u8>, start: usize) -> (res:
    Result<usize, IoError<E>>)
    requires
        old(buf)@.len() == 0,
        start <= old(bytes)@.len(),
        valid_utf8(old(bytes)@.take(start as int)),
    ensures
        final(bytes)@.len() == 0,
        !valid_utf8(old(bytes)@) ==> {
            &&& final(buf)@ == decode_utf8(old(bytes)@.take(start as int))
            &&& res == match ret {
                Ok(_) => Err::<usize, IoError<E>>(IoError::Kind(ErrorKind::InvalidData)),
                Err(e) => Err(IoError::<E>::Inner(e)),
            }
        },
        valid_utf8(old(bytes)@) ==> {
            &&& final(buf)@ == decode_utf8(old(bytes)@)
            &&& res == match ret {
                Ok(n) => Ok::<usize, IoError<E>>(n),
                Err(e) => Err(IoError::<E>::Inner(e)),
            }
        },
{
    let valid = is_valid_utf8(bytes.as_slice());
    if !valid {
        bytes.truncate(start);
        assert(bytes@ =~= old(bytes)@.take(start as int));
    }
    let mut text: Vec<u8> = Vec::new();
    std::mem::swap(bytes, &mut text);
    *buf = string_from_utf8(text);
    if !valid {
        match ret {
            Ok(_) => Err(IoError::Kind(ErrorKind::InvalidData)),
            Err(e) => Err(IoError::Inner(e)),
        }
    } else {
        match ret {
            Ok(n) => Ok(n),
            Err(e) => Err(IoError::Inner(e)),
        }
    }
}

/// What a stream of lines yields once the delimited read that it started has
/// returned `ret`, with `bytes` holding what was read: `None` at the end of the
/// input, the next line without its `"\n"` or `"\r\n"`, or an error. A line that is
/// not valid UTF-8 gives `InvalidData` once and is skipped: its bytes are dropped,
/// so that the lines after it are read as usual.
///
/// `buf` and `bytes` are the stream's own text and byte buffers; both are left empty
/// for the next call.
pub fn next_line_item<E>(ret: Result<usize, E>, buf: &mut String, bytes: &mut Vec<u8>) -> (res:
    Option<Result<String, IoError<E>>>)
    requires
        old(buf)@.len() == 0,
    ensures
        final(buf)@.len() == 0,
        final(bytes)@.len() == 0,
        !valid_utf8(old(bytes)@) ==> res == Some(
            match ret {
                Ok(_) => Err::<String, IoError<E>>(IoError::Kind(ErrorKind::InvalidData)),
                Err(e) => Err(IoError::<E>::Inner(e)),
            },
        ),
        valid_utf8(old(bytes)@) ==> match ret {
            Err(e) => res == Some(Err::<String, IoError<E>>(IoError::Inner(e))),
            Ok(n) => if n == 0 && old(bytes)@.len() == 0 {
                res.is_none()
            } else {
                res matches Some(Ok(line)) && line@ == strip_line_end(decode_utf8(old(bytes)@))
            },
        },
{
    proof {
        assert(bytes@.take(0) =~= Seq::<u8>::empty());
        assert(decode_utf8(Seq::<u8>::empty()) =~= Seq::<char>::empty());
        if valid_utf8(bytes@) {
            decode_utf8_encode_utf8(bytes@);
        }
    }
    match finish_read_line(ret, buf, bytes, 0) {
        Err(e) => {
            *buf = String::new();
            Some(Err(e))
        },
        Ok(n) => {
            if n == 0 && buf.as_str().is_empty() {
                proof {
                    if old(bytes)@.len() > 0 {
                        assert(encode_utf8(buf@) == old(bytes)@);
                    }
                }
                None
            } else {
                trim_line_end(buf);
                let mut line = String::new();
                std::mem::swap(buf, &mut line);
                Some(Ok(line))
            }
        },
    }
}

/// What a stream of `delim`-separated chunks yields once the delimited read that it
/// started has returned `Ok(n)`, with `buf` holding what was read: `None` at the end
/// of the input, or the chunk without its trailing `delim`, leaving `buf` empty.
pub fn next_split_item(n: usize, delim: u8, buf: &mut Vec<u8>) -> (res: Option<Vec<u8>>)
    ensures
        n == 0 && old(buf)@.len() == 0 ==> res.is_none() && final(buf)@ == old(buf)@,
        !(n == 0 && old(buf)@.len() == 0) ==> {
            &&& final(buf)@.len() == 0
            &&& res matches Some(chunk) && chunk@ == strip_delim(old(buf)@, delim)
        },
{
    if n == 0 && buf.len() == 0 {
        return None;
    }
    if buf.len() > 0 && buf[buf.len() - 1] == delim {
        buf.pop();
    }
    let mut chunk: Vec<u8> = Vec::new();
    std::mem::swap(buf, &mut chunk);
    Some(chunk)
}


/// The state of a read up to a delimiter byte: the delimiter and the number of
/// bytes read so far.
#[derive(Debug)]
pub struct ReadUntilFuture {
    byte: u8,
    read: usize,
}

impl ReadUntilFuture {
    /// The delimiter.
    pub closed spec fn delim(&self) -> u8 {
        self.byte
    }

    /// The bytes read so far.
    pub closed spec fn progress(&self) -> nat {
        self.read as nat
    }

    /// A read up to `byte` that has read nothing yet.
    pub fn new(byte: u8) -> (f: ReadUntilFuture)
        ensures
            f.delim() == byte,
            f.progress() == 0,
    {
        ReadUntilFuture { byte, read: 0 }
    }

    /// The bytes read so far.
    pub fn read_so_far(&self) -> (n: usize)
        ensures
            n == self.progress(),
    {
        self.read
    }

    /// One round over the reader's buffer `available`: see `read_until_step`.
    pub fn poll_step(&mut self, available: &[u8], buf: &mut Vec<u8>) -> (res: (usize, Option<usize>))
        requires
            old(buf)@.len() + available@.len() <= usize::MAX,
            old(self).progress() + available@.len() <= usize::MAX,
        ensures
            final(self).delim() == old(self).delim(),
            res.0 == chunk_len(available@, old(self).delim()),
            res.0 <= available@.len(),
            final(buf)@ == old(buf)@ + available@.take(res.0 as int),
            ({
                let done = res.0 == 0 || available@[res.0 - 1] == old(self).delim();
                &&& done ==> res.1 == Some((old(self).progress() + res.0) as usize)
                    && final(self).progress() == 0
                &&& !done ==> res.1.is_none() && final(self).progress() == old(self).progress()
                    + res.0
            }),
    {
        read_until_step(self.byte, available, buf, &mut self.read)
    }
}

/// The state of a line read: the bytes of the caller's text followed by those read
/// so far, where the caller's text ends, and the count read so far.
#[derive(Debug)]
pub struct ReadLineFuture {
    bytes: Vec<u8>,
    start: usize,
    read: usize,
}

impl ReadLineFuture {
    #[verifier::type_invariant]
    spec fn inv(self) -> bool {
        &&& self.start <= self.bytes@.len()
        &&& valid_utf8(self.bytes@.take(self.start as int))
    }

    /// The caller's text, as bytes, followed by the bytes read so far.
    pub closed spec fn bytes(&self) -> Seq<u8> {
        self.bytes@
    }

    /// The caller's text, which a failed read gives back.
    pub closed spec fn text(&self) -> Seq<char> {
        decode_utf8(self.bytes@.take(self.start as int))
    }

    /// The number of bytes read so far.
    pub closed spec fn progress(&self) -> nat {
        self.read as nat
    }

    /// Starts a line read into `buf`: its text moves into the read's bytes, and
    /// `buf` is left empty until the read finishes.
    pub fn new(buf: &mut String) -> (f: ReadLineFuture)
        ensures
            f.bytes() == encode_utf8(old(buf)@),
            f.text() == old(buf)@,
            f.progress() == 0,
            final(buf)@.len() == 0,
    {
        let bytes = string_bytes(buf);
        let start = bytes.len();
        proof {
            encode_utf8_valid_utf8(old(buf)@);
            encode_utf8_decode_utf8(old(buf)@);
            assert(bytes@.take(start as int) =~= bytes@);
        }
        *buf = String::new();
        ReadLineFuture { bytes, start, read: 0 }
    }

    /// The number of bytes read so far, and the length of the bytes held.
    pub fn sizes(&self) -> (r: (usize, usize))
        ensures
            r.0 == self.progress(),
            r.1 == self.bytes().len(),
    {
        (self.read, self.bytes.len())
    }

    /// One round over the reader's buffer `available`, with `'\n'` as the
    /// delimiter: see `read_until_step`.
    pub fn poll_step(&mut self, available: &[u8]) -> (res: (usize, Option<usize>))
        requires
            old(self).bytes().len() + available@.len() <= usize::MAX,
            old(self).progress() + available@.len() <= usize::MAX,
        ensures
            res.0 == chunk_len(available@, 10u8),
            res.0 <= available@.len(),
            final(self).bytes() == old(self).bytes() + available@.take(res.0 as int),
            final(self).text() == old(self).text(),
            ({
                let done = res.0 == 0 || available@[res.0 - 1] == 10u8;
                &&& done ==> res.1 == Some((old(self).progress() + res.0) as usize)
                    && final(self).progress() == 0
                &&& !done ==> res.1.is_none() && final(self).progress() == old(self).progress()
                    + res.0
            }),
    {
        proof {
            use_type_invariant(&*self);
        }
        let mut taken = ReadLineFuture { bytes: Vec::new(), start: 0, read: 0 };
        std::mem::swap(self, &mut taken);
        let ReadLineFuture { mut bytes, start, mut read } = taken;
        let ghost before = bytes@;
        let r = read_until_step(10u8, available, &mut bytes, &mut read);
        proof {
            assert(bytes@.take(start as int) =~= before.take(start as int));
        }
        *self = ReadLineFuture { bytes, start, read };
        r
    }

    /// Ends the read once the delimited read returned `ret`, into the caller's
    /// string `buf`, left empty by `new`: see `finish_read_line`. On invalid UTF-8
    /// `buf` gets back the caller's text.
    pub fn finish<E>(&mut self, ret: Result<usize, E>, buf: &mut String) -> (res: Result<usize, IoError<E>>)
        requires
            old(buf)@.len() == 0,
        ensures
            final(self).bytes().len() == 0,
            !valid_utf8(old(self).bytes()) ==> {
                &&& final(buf)@ == old(self).text()
                &&& res == match ret {
                    Ok(_) => Err::<usize, IoError<E>>(IoError::Kind(ErrorKind::InvalidData)),
                    Err(e) => Err(IoError::<E>::Inner(e)),
                }
            },
            valid_utf8(old(self).bytes()) ==> {
                &&& final(buf)@ == decode_utf8(old(self).bytes())
                &&& res == match ret {
                    Ok(n) => Ok::<usize, IoError<E>>(n),
                    Err(e) => Err(IoError::<E>::Inner(e)),
                }
            },
    {
        proof {
            use_type_invariant(&*self);
        }
        let mut taken = ReadLineFuture { bytes: Vec::new(), start: 0, read: 0 };
        proof {
            assert(taken.bytes@.take(0) =~= Seq::<u8>::empty());
            assert(decode_utf8(Seq::<u8>::empty()) =~= Seq::<char>::empty());
        }
        std::mem::swap(self, &mut taken);
        let ReadLineFuture { mut bytes, start, read } = taken;
        let res = finish_read_line(ret, buf, &mut bytes, start);
        proof {
            assert(bytes@.take(0) =~= Seq::<u8>::empty());
        }
        *self = ReadLineFuture { bytes, start: 0, read };
        res
    }
}

/// A buffered reader over bytes held in memory: its buffer is everything not yet
/// consumed, and it never waits or fails.
#[derive(Debug)]
pub struct SliceReader {
    data: Vec<u8>,
    pos: usize,
}

impl View for SliceReader {
    type V = Seq<u8>;

    /// The bytes not yet consumed.
    closed spec fn view(&self) -> Seq<u8> {
        self.data@.skip(self.pos as int)
    }
}

impl SliceReader {
    #[verifier::type_invariant]
    spec fn inv(self) -> bool {
        self.pos <= self.data@.len() <= usize::MAX
    }

    /// A reader that will yield `data`.
    pub fn new(data: Vec<u8>) -> (r: Self)
        ensures
            r@ == data@,
    {
        let _ = data.len();
        let r = SliceReader { data, pos: 0 };
        assert(r@ =~= r.data@);
        r
    }

    /// The bytes not yet consumed; empty at the end of the input.
    pub fn fill_buf(&self) -> (b: &[u8])
        ensures
            b@ == self@,
    {
        proof {
            use_type_invariant(self);
        }
        let b = &self.data.as_slice()[self.pos..self.data.len()];
        assert(b@ =~= self@);
        b
    }

    /// Marks the first `amt` bytes of the buffer as read.
    pub fn consume(&mut self, amt: usize)
        requires
            amt <= old(self)@.len(),
        ensures
            final(self)@ == old(self)@.skip(amt as int),
    {
        proof {
            use_type_invariant(&*self);
        }
        self.pos = self.pos + amt;
        assert(self@ =~= old(self)@.skip(amt as int));
    }

    /// Reads all bytes up to and including the next `byte`, or to the end of the
    /// input, and appends them to `buf`; returns how many there were.
    pub fn read_until(&mut self, byte: u8, buf: &mut Vec<u8>) -> (n: usize)
        requires
            old(buf)@.len() + old(self)@.len() <= usize::MAX,
        ensures
            n == chunk_len(old(self)@, byte),
            final(buf)@ == old(buf)@ + old(self)@.take(n as int),
            final(self)@ == old(self)@.skip(n as int),
    {
        let mut fut = ReadUntilFuture::new(byte);
        loop
            invariant
                fut.delim() == byte,
                fut.progress() <= old(self)@.len(),
                self@ == old(self)@.skip(fut.progress() as int),
                buf@ == old(buf)@ + old(self)@.take(fut.progress() as int),
                old(buf)@.len() + old(self)@.len() <= usize::MAX,
                fut.progress() > 0 ==> fut.progress() == old(self)@.len() && chunk_len(old(self)@, byte)
                    == fut.progress(),
            decreases self@.len(),
        {
            let ghost before = self@;
            let ghost read0 = fut.progress();
            let (used, finished) = fut.poll_step(self.fill_buf(), buf);
            self.consume(used);
            proof {
                assert(old(self)@.take(read0 + used) =~= old(self)@.take(read0 as int) + before.take(
                    used as int,
                ));
                assert(old(self)@.skip(read0 + used) =~= before.skip(used as int));
                lemma_chunk_len_le(before, byte);
                if read0 > 0 {
                    assert(before.len() == 0);
                    assert(chunk_len(before, byte) == 0);
                } else {
                    assert(before =~= old(self)@);
                }
            }
            match finished {
                Some(total) => {
                    proof {
                        assert(old(self)@.take(total as int) =~= old(self)@.take(read0 + used));
                    }
                    return total;
                },
                None => {},
            }
        }
    }

    /// Reads a line, up to and including the next `'\n'` or to the end of the input,
    /// and appends its text to `buf`; returns how many bytes were read.
    ///
    /// When the text in `buf` followed by the bytes read is not valid UTF-8 the
    /// result is `InvalidData`, the bytes read are dropped, and `buf` keeps its text.
    pub fn read_line(&mut self, buf: &mut String) -> (res: Result<usize, ErrorKind>)
        requires
            encode_utf8(old(buf)@).len() + old(self)@.len() <= usize::MAX,
        ensures
            ({
                let n = chunk_len(old(self)@, 10u8);
                let all = encode_utf8(old(buf)@) + old(self)@.take(n as int);
                &&& final(self)@ == old(self)@.skip(n as int)
                &&& valid_utf8(all) ==> res == Ok::<usize, ErrorKind>(n as usize) && final(buf)@
                    == decode_utf8(all)
                &&& !valid_utf8(all) ==> res == Err::<usize, ErrorKind>(ErrorKind::InvalidData)
                    && final(buf)@ == old(buf)@
            }),
    {
        let mut bytes = string_bytes(buf);
        let start = bytes.len();
        proof {
            encode_utf8_valid_utf8(old(buf)@);
            encode_utf8_decode_utf8(old(buf)@);
            assert(bytes@.take(start as int) =~= bytes@);
        }
        *buf = String::new();
        let n = self.read_until(10u8, &mut bytes);
        proof {
            assert(bytes@.take(start as int) =~= encode_utf8(old(buf)@));
        }
        match finish_read_line::<ErrorKind>(Ok(n), buf, &mut bytes, start) {
            Ok(n) => Ok(n),
            Err(IoError::Kind(k)) => Err(k),
            Err(IoError::Inner(k)) => Err(k),
        }
    }

    /// A stream over the lines of the rest of the input.
    pub fn lines(self) -> (l: Lines)
        ensures
            l@ == self@,
    {
        Lines { reader: self, buf: String::new(), bytes: Vec::new() }
    }

    /// A stream over the rest of the input split at each `byte`.
    pub fn split(self, byte: u8) -> (s: Split)
        ensures
            s@ == self@,
            s.delim() == byte,
    {
        Split { reader: self, delim: byte }
    }
}

proof fn lemma_chunk_len_le(s: Seq<u8>, delim: u8)
    ensures
        chunk_len(s, delim) <= s.len(),
        chunk_len(s, delim) < s.len() ==> s[chunk_len(s, delim) - 1] == delim,
        0 < chunk_len(s, delim) ==> s[chunk_len(s, delim) - 1] == delim || chunk_len(s, delim) == s.len(),
    decreases s.len(),
{
    if s.len() > 0 && s[0] != delim {
        lemma_chunk_len_le(s.drop_first(), delim);
    }
}

/// The lines of an in-memory input, each without its `"\n"` or `"\r\n"`.
#[derive(Debug)]
pub struct Lines {
    reader: SliceReader,
    buf: String,
    bytes: Vec<u8>,
}

impl View for Lines {
    /// The input not yet read.
    type V = Seq<u8>;

    closed spec fn view(&self) -> Seq<u8> {
        self.reader@
    }
}

impl Lines {
    #[verifier::type_invariant]
    spec fn inv(self) -> bool {
        &&& self.buf@.len() == 0
        &&& self.bytes@.len() == 0
    }

    /// The next line; `None` at the end of the input.
    ///
    /// A line whose bytes are not valid UTF-8 gives `InvalidData` once and is
    /// skipped; the lines after it are read as usual.
    pub fn next_line(&mut self) -> (res: Option<Result<String, ErrorKind>>)
        ensures
            ({
                let n = chunk_len(old(self)@, 10u8);
                let all = old(self)@.take(n as int);
                &&& final(self)@ == old(self)@.skip(n as int)
                &&& !valid_utf8(all) ==> res == Some(Err::<String, ErrorKind>(ErrorKind::InvalidData))
                &&& valid_utf8(all) && all.len() == 0 ==> res.is_none()
                &&& valid_utf8(all) && all.len() > 0 ==> (res matches Some(Ok(line)) && line@
                    == strip_line_end(decode_utf8(all)))
            }),
    {
        proof {
            use_type_invariant(&*self);
            use_type_invariant(&self.reader);
        }
        let mut reader = SliceReader::new(Vec::new());
        let mut bytes: Vec<u8> = Vec::new();
        let mut buf = String::new();
        std::mem::swap(&mut reader, &mut self.reader);
        let n = reader.read_until(10u8, &mut bytes);
        proof {
            lemma_chunk_len_le(old(self)@, 10u8);
            assert(bytes@ =~= old(self)@.take(n as int));
        }
        let item = next_line_item::<ErrorKind>(Ok(n), &mut buf, &mut bytes);
        std::mem::swap(&mut reader, &mut self.reader);
        match item {
            None => None,
            Some(Ok(line)) => Some(Ok(line)),
            Some(Err(IoError::Kind(k))) => Some(Err(k)),
            Some(Err(IoError::Inner(k))) => Some(Err(k)),
        }
    }
}

/// The chunks of an in-memory input separated by a delimiter byte, each without its
/// delimiter.
#[derive(Debug)]
pub struct Split {
    reader: SliceReader,
    delim: u8,
}

impl View for Split {
    /// The input not yet read.
    type V = Seq<u8>;

    closed spec fn view(&self) -> Seq<u8> {
        self.reader@
    }
}

impl Split {
    /// The byte this stream splits at.
    pub closed spec fn delim(&self) -> u8 {
        self.delim
    }

    /// The next chunk; `None` at the end of the input.
    pub fn next_chunk(&mut self) -> (res: Option<Vec<u8>>)
        ensures
            ({
                let n = chunk_len(old(self)@, old(self).delim());
                &&& final(self)@ == old(self)@.skip(n as int)
                &&& final(self).delim() == old(self).delim()
                &&& n == 0 ==> res.is_none()
                &&& n > 0 ==> (res matches Some(chunk) && chunk@ == strip_delim(
                    old(self)@.take(n as int),
                    old(self).delim(),
                ))
                &&& n > 0 ==> (res matches Some(chunk) && chunk@ == split_chunks(
                    old(self)@,
                    old(self).delim(),
                )[0])
                &&& n > 0 ==> split_chunks(final(self)@, final(self).delim()) == split_chunks(
                    old(self)@,
                    old(self).delim(),
                ).drop_first()
            }),
    {
        proof {
            use_type_invariant(&self.reader);
        }
        let delim = self.delim;
        let mut buf: Vec<u8> = Vec::new();
        let ghost before = self.reader@;
        let n = self.reader.read_until(delim, &mut buf);
        proof {
            read_until_stops_at_first_delimiter(before, delim);
            if before.len() > 0 {
                let cs = split_chunks(before, delim);
                assert(cs =~= seq![strip_delim(before.take(n as int), delim)] + split_chunks(
                    before.skip(n as int),
                    delim,
                ));
                assert(cs.drop_first() =~= split_chunks(before.skip(n as int), delim));
            } else {
                assert(before.skip(n as int) =~= before);
            }
        }
        next_split_item(n, delim, &mut buf)
    }
}


/// A delimited read takes the input up to and including the first delimiter, or all
/// of it when there is none; it takes nothing only at the end of the input.
pub proof fn read_until_stops_at_first_delimiter(s: Seq<u8>, delim: u8)
    ensures
        chunk_len(s, delim) <= s.len(),
        chunk_len(s, delim) == 0 <==> s.len() == 0,
        forall|i: int| 0 <= i < chunk_len(s, delim) - 1 ==> s[i] != delim,
        (exists|i: int| 0 <= i < s.len() && s[i] == delim) ==> s[chunk_len(s, delim) - 1] == delim,
        (forall|i: int| 0 <= i < s.len() ==> s[i] != delim) ==> chunk_len(s, delim) == s.len(),
    decreases s.len(),
{
    lemma_chunk_len_le(s, delim);
    if s.len() > 0 && s[0] != delim {
        let t = s.drop_first();
        read_until_stops_at_first_delimiter(t, delim);
        assert forall|i: int| 0 <= i < chunk_len(s, delim) - 1 implies s[i] != delim by {
            if i > 0 {
                assert(s[i] == t[i - 1]);
            }
        }
        if exists|i: int| 0 <= i < s.len() && s[i] == delim {
            let i = choose|i: int| 0 <= i < s.len() && s[i] == delim;
            assert(t[i - 1] == delim);
        }
        if forall|i: int| 0 <= i < s.len() ==> s[i] != delim {
            assert forall|i: int| 0 <= i < t.len() implies t[i] != delim by {
                assert(t[i] == s[i + 1]);
            }
        }
    }
}

/// A chunk of a split never contains the delimiter.
pub proof fn split_chunk_has_no_delimiter(s: Seq<u8>, delim: u8)
    ensures
        forall|i: int|
            0 <= i < strip_delim(s.take(chunk_len(s, delim) as int), delim).len() ==> strip_delim(
                s.take(chunk_len(s, delim) as int),
                delim,
            )[i] != delim,
{
    read_until_stops_at_first_delimiter(s, delim);
    let c = chunk_len(s, delim) as int;
    let chunk = s.take(c);
    let out = strip_delim(chunk, delim);
    assert forall|i: int| 0 <= i < out.len() implies out[i] != delim by {
        assert(out[i] == s[i]);
        if i == c - 1 {
            assert(chunk.last() != delim);
        }
    }
}

/// The chunks that a stream splitting `s` at `delim` yields, in order: each call of
/// `Split::next_chunk` yields the first and leaves the input of the rest.
pub open spec fn split_chunks(s: Seq<u8>, delim: u8) -> Seq<Seq<u8>>
    decreases s.len(),
{
    if s.len() == 0 {
        Seq::empty()
    } else {
        proof {
            read_until_stops_at_first_delimiter(s, delim);
        }
        let n = chunk_len(s, delim) as int;
        seq![strip_delim(s.take(n), delim)] + split_chunks(s.skip(n), delim)
    }
}

/// The chunks `cs`, each followed by `delim`, one after the other.
pub open spec fn rejoin(cs: Seq<Seq<u8>>, delim: u8) -> Seq<u8>
    decreases cs.len(),
{
    if cs.len() == 0 {
        Seq::empty()
    } else {
        cs[0] + seq![delim] + rejoin(cs.drop_first(), delim)
    }
}

/// A split loses and invents no byte: its chunks, each followed by the delimiter,
/// give back the input, with one delimiter more at the end when the input did not
/// end with one.
pub proof fn split_loses_nothing(s: Seq<u8>, delim: u8)
    ensures
        rejoin(split_chunks(s, delim), delim) == if s.len() == 0 || s.last() == delim {
            s
        } else {
            s.push(delim)
        },
    decreases s.len(),
{
    if s.len() > 0 {
        read_until_stops_at_first_delimiter(s, delim);
        lemma_chunk_len_le(s, delim);
        let n = chunk_len(s, delim) as int;
        let head = s.take(n);
        let t = s.skip(n);
        let c = strip_delim(head, delim);
        split_loses_nothing(t, delim);
        let cs = split_chunks(s, delim);
        assert(cs =~= seq![c] + split_chunks(t, delim));
        assert(cs[0] == c);
        assert(cs.drop_first() =~= split_chunks(t, delim));
        assert(rejoin(cs, delim) == c + seq![delim] + rejoin(split_chunks(t, delim), delim));
        if s[n - 1] == delim {
            assert(head.last() == delim);
            assert(c + seq![delim] =~= head);
            if t.len() == 0 {
                assert(n == s.len());
                assert(head =~= s);
            } else {
                assert(t.last() == s.last());
                assert(head + t =~= s);
                assert(head + t.push(delim) =~= s.push(delim));
            }
        } else {
            assert(n == s.len());
            assert(head =~= s);
            assert(c == head);
            assert(t.len() == 0);
            assert(rejoin(split_chunks(t, delim), delim) =~= Seq::<u8>::empty());
            assert(c + seq![delim] =~= s.push(delim));
        }
    }
}

proof fn lemma_decode_without_newline_byte(b: Seq<u8>)
    requires
        valid_utf8(b),
        forall|i: int| 0 <= i < b.len() ==> b[i] != 10u8,
    ensures
        forall|j: int| 0 <= j < decode_utf8(b).len() ==> decode_utf8(b)[j] != '\n',
    decreases b.len(),
{
    if b.len() > 0 {
        let c = decode_first_scalar(b);
        let rest = pop_first_scalar(b);
        assert(c != 10u32) by {
            if is_leading_byte_width_1(b[0]) {
                let b0 = b[0];
                assert((b0 & 0x7F) == b0) by (bit_vector)
                    requires
                        b0 <= 0x7f,
                ;
            }
        }
        assert((c as char) != '\n') by {
            if (c as char) == '\n' {
                decode_utf8_first_scalar(b);
                assert(('\n' as u32) == 10u32);
                assert((10u32 & 0x7Fu32) as u8 == 10u8) by (bit_vector);
                assert(encode_scalar(10u32) =~= seq![10u8]);
                assert(take_first_scalar(b)[0] == b[0]);
            }
        }
        assert(length_of_first_scalar(b) <= b.len());
        assert forall|i: int| 0 <= i < rest.len() implies rest[i] != 10u8 by {
            assert(rest[i] == b[i + length_of_first_scalar(b)]);
        }
        lemma_decode_without_newline_byte(rest);
        let d = decode_utf8(b);
        assert(d == seq![c as char] + decode_utf8(rest));
        assert forall|j: int| 0 <= j < d.len() implies d[j] != '\n' by {
            if j > 0 {
                assert(d[j] == decode_utf8(rest)[j - 1]);
            }
        }
    }
}

/// A line yielded by a stream of lines never contains `'\n'`: the read stops at the
/// first newline byte, and that one is removed.
pub proof fn line_has_no_newline(s: Seq<u8>)
    requires
        valid_utf8(s.take(chunk_len(s, 10u8) as int)),
    ensures
        ({
            let line = strip_line_end(decode_utf8(s.take(chunk_len(s, 10u8) as int)));
            forall|j: int| 0 <= j < line.len() ==> line[j] != '\n'
        }),
{
    read_until_stops_at_first_delimiter(s, 10u8);
    let c = chunk_len(s, 10u8) as int;
    let chunk = s.take(c);
    let d = decode_utf8(chunk);
    if c > 0 && chunk.last() == 10u8 {
        let head = chunk.subrange(0, c - 1);
        is_char_boundary_start_end_of_seq(chunk);
        assert(!is_continuation_byte(chunk[c - 1]));
        is_char_boundary_iff_not_is_continuation_byte(chunk, c - 1);
        valid_utf8_split(chunk, c - 1);
        decode_utf8_split(chunk, c - 1);
        let tail = chunk.subrange(c - 1, c);
        assert(tail =~= seq![10u8]);
        assert((10u8 & 0x7Fu8) == 10u8) by (bit_vector);
        assert(valid_first_scalar(tail));
        assert(pop_first_scalar(tail) =~= Seq::<u8>::empty());
        assert(decode_first_scalar(tail) == 10u32);
        char_u32_cast('\n', 10u32);
        assert(decode_utf8(tail) =~= seq!['\n']) by {
            reveal_with_fuel(decode_utf8, 2);
            assert(decode_utf8(pop_first_scalar(tail)) =~= Seq::<char>::empty());
        }
        assert forall|i: int| 0 <= i < head.len() implies head[i] != 10u8 by {
            assert(head[i] == s[i]);
        }
        lemma_decode_without_newline_byte(head);
        assert(d =~= decode_utf8(head).push('\n'));
        assert(d.drop_last() =~= decode_utf8(head));
        let line = strip_line_end(d);
        assert forall|j: int| 0 <= j < line.len() implies line[j] != '\n' by {
            assert(line[j] == decode_utf8(head)[j]);
        }
    } else {
        assert forall|i: int| 0 <= i < chunk.len() implies chunk[i] != 10u8 by {
            assert(chunk[i] == s[i]);
            if i == c - 1 {
                assert(chunk.last() != 10u8);
            }
        }
        lemma_decode_without_newline_byte(chunk);
        assert(strip_line_end(d) == d);
    }
}

/// The line ending that the bytes `c` of a line end with: `"\r\n"`, `"\n"`, or
/// none.
pub open spec fn line_ending(c: Seq<u8>) -> Seq<u8> {
    if c.len() >= 2 && c[c.len() - 2] == 13u8 && c[c.len() - 1] == 10u8 {
        seq![13u8, 10u8]
    } else if c.len() >= 1 && c[c.len() - 1] == 10u8 {
        seq![10u8]
    } else {
        Seq::empty()
    }
}

proof fn lemma_encode_concat(x: Seq<char>, y: Seq<char>)
    ensures
        encode_utf8(x + y) == encode_utf8(x) + encode_utf8(y),
    decreases x.len(),
{
    if x.len() == 0 {
        assert(x + y =~= y);
        assert(encode_utf8(x) =~= Seq::<u8>::empty());
        assert(encode_utf8(x) + encode_utf8(y) =~= encode_utf8(y));
    } else {
        lemma_encode_concat(x.drop_first(), y);
        assert((x + y).drop_first() =~= x.drop_first() + y);
        assert((x + y)[0] == x[0]);
        assert(encode_utf8(x + y) =~= encode_utf8(x) + encode_utf8(y));
    }
}

/// The one-character text `ch`, a character below 0x80, is the one byte `b`.
proof fn lemma_ascii(ch: char, b: u8)
    requires
        ch as u32 == b as u32,
        b < 0x80,
    ensures
        encode_utf8(seq![ch]) == seq![b],
        decode_utf8(seq![b]) == seq![ch],
{
    let v = ch as u32;
    assert((v & 0x7Fu32) as u8 == b) by (bit_vector)
        requires
            v == b as u32,
            b < 0x80,
    ;
    assert(seq![ch].drop_first() =~= Seq::<char>::empty());
    assert(encode_utf8(seq![ch]) =~= encode_scalar(v) + encode_utf8(Seq::<char>::empty()));
    assert(encode_utf8(seq![ch]) =~= seq![b]);
    encode_utf8_decode_utf8(seq![ch]);
}

/// Splits the valid `c` before its last byte, an ASCII byte `b` that stands for
/// `ch`: the text of `c` is the text of the rest followed by `ch`.
proof fn lemma_split_last_ascii(c: Seq<u8>, ch: char, b: u8)
    requires
        valid_utf8(c),
        c.len() > 0,
        c.last() == b,
        ch as u32 == b as u32,
        b < 0x80,
    ensures
        valid_utf8(c.drop_last()),
        decode_utf8(c) == decode_utf8(c.drop_last()).push(ch),
{
    let n = c.len() as int;
    assert(!is_continuation_byte(b)) by (bit_vector)
        requires
            b < 0x80,
    ;
    is_char_boundary_iff_not_is_continuation_byte(c, n - 1);
    valid_utf8_split(c, n - 1);
    decode_utf8_split(c, n - 1);
    assert(c.subrange(0, n - 1) =~= c.drop_last());
    assert(c.subrange(n - 1, n) =~= seq![b]);
    lemma_ascii(ch, b);
    assert(decode_utf8(c) =~= decode_utf8(c.drop_last()).push(ch));
}

/// The text `t` ends with the ASCII character `ch` exactly when its encoding ends
/// with the byte `b` that stands for `ch`.
proof fn lemma_ends_with_ascii(t: Seq<char>, ch: char, b: u8)
    requires
        ch as u32 == b as u32,
        b < 0x80,
        t.len() > 0,
        t.last() == ch,
    ensures
        encode_utf8(t).len() > 0,
        encode_utf8(t).last() == b,
{
    assert(t =~= t.drop_last() + seq![ch]);
    lemma_encode_concat(t.drop_last(), seq![ch]);
    lemma_ascii(ch, b);
}

/// A line of a stream of lines loses nothing but its line ending: the line's text,
/// encoded, followed by the `"\n"` or `"\r\n"` that was removed, gives back the
/// bytes that the read took.
pub proof fn line_loses_only_its_ending(s: Seq<u8>)
    requires
        valid_utf8(s.take(chunk_len(s, 10u8) as int)),
    ensures
        ({
            let c = s.take(chunk_len(s, 10u8) as int);
            c == encode_utf8(strip_line_end(decode_utf8(c))) + line_ending(c)
        }),
{
    let c = s.take(chunk_len(s, 10u8) as int);
    let d = decode_utf8(c);
    let n = c.len() as int;
    decode_utf8_encode_utf8(c);
    char_u32_cast('\n', 10u32);
    char_u32_cast('\r', 13u32);
    if n >= 1 && c[n - 1] == 10u8 {
        lemma_split_last_ascii(c, '\n', 10u8);
        let head = c.drop_last();
        let t = decode_utf8(head);
        assert(d.last() == '\n');
        assert(d.drop_last() =~= t);
        decode_utf8_encode_utf8(head);
        if n >= 2 && c[n - 2] == 13u8 {
            assert(head.last() == 13u8);
            lemma_split_last_ascii(head, '\r', 13u8);
            let head2 = head.drop_last();
            assert(t.last() == '\r');
            assert(t.drop_last() =~= decode_utf8(head2));
            decode_utf8_encode_utf8(head2);
            assert(c =~= head2 + seq![13u8, 10u8]);
        } else {
            if t.len() > 0 && t.last() == '\r' {
                lemma_ends_with_ascii(t, '\r', 13u8);
                assert(head.last() == 13u8);
                assert(c[n - 2] == head[n - 2]);
            }
            assert(strip_line_end(d) == t);
            assert(c =~= head + seq![10u8]);
        }
    } else {
        if d.len() > 0 && d.last() == '\n' {
            lemma_ends_with_ascii(d, '\n', 10u8);
        }
        assert(strip_line_end(d) == d);
        assert(line_ending(c) =~= Seq::<u8>::empty());
        assert(c =~= encode_utf8(d) + Seq::<u8>::empty());
    }
}

} // verus!
