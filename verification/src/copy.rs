//! Copying a whole source into a sink through a fixed-size shuttle buffer,
//! retrying interrupted reads, until a zero-length read signals the end.

use vstd::prelude::*;

use crate::error::Error;
use crate::rw::Read;
use crate::rw::Write;
use crate::rw::DEFAULT_BUF_SIZE;
use crate::rw::RETRY_LIMIT;

verus! {

/// Copy everything `reader` has left into `writer`, returning how many
/// bytes moved. The sink's history grows by exactly that count and keeps
/// everything it had.
///
/// This is the strategy needing nothing from either side. A caller whose
/// source is already buffered does better with
/// [`crate::bufreader::BufReader::copy_to`], which drains the source's own
/// buffer; one whose sink is buffered does better with
/// [`crate::bufwriter::BufWriter::copy_from`], which reads straight into
/// the sink's spare room.
pub fn copy<R: Read, W: Write>(reader: &mut R, writer: &mut W) -> (r: Result<u64, Error>)
    ensures
        final(writer).sunk().take(old(writer).sunk().len() as int) == old(writer).sunk(),
        final(writer).sunk().len() >= old(writer).sunk().len(),
        r matches Ok(n) ==> final(writer).sunk().len() == old(writer).sunk().len() + n,
        old(reader).models_stream() ==> ({
            &&& final(reader).models_stream()
            &&& (r matches Ok(n) ==> n == old(reader).stream().len() && final(writer).sunk()
                == old(writer).sunk() + old(reader).stream() && final(reader).stream().len() == 0)
        }),
{
    stack_buffer_copy(reader, writer)
}

/// The copy strategy needing nothing from either side: a stack-sized
/// scratch buffer shuttles bytes until the source reports end of input.
pub fn stack_buffer_copy<R: Read, W: Write>(reader: &mut R, writer: &mut W) -> (r: Result<
    u64,
    Error,
>)
    ensures
        final(writer).sunk().take(old(writer).sunk().len() as int) == old(writer).sunk(),
        final(writer).sunk().len() >= old(writer).sunk().len(),
        r matches Ok(n) ==> final(writer).sunk().len() == old(writer).sunk().len() + n,
        old(reader).models_stream() ==> ({
            &&& final(reader).models_stream()
            &&& (r matches Ok(n) ==> n == old(reader).stream().len() && final(writer).sunk()
                == old(writer).sunk() + old(reader).stream() && final(reader).stream().len() == 0)
        }),
{
    let mut len: u64 = 0;
    let mut fuel: u64 = RETRY_LIMIT;
    loop
        invariant
            writer.sunk().take(old(writer).sunk().len() as int) == old(writer).sunk(),
            writer.sunk().len() == old(writer).sunk().len() + len,
            old(reader).models_stream() ==> ({
                &&& reader.models_stream()
                &&& len <= old(reader).stream().len()
                &&& writer.sunk() == old(writer).sunk() + old(reader).stream().take(len as int)
                &&& reader.stream() == old(reader).stream().skip(len as int)
            }),
        decreases u64::MAX - len, fuel,
    {
        let mut tmp: Vec<u8> = vec![0u8; DEFAULT_BUF_SIZE];
        match reader.read(&mut tmp) {
            Ok(0) => {
                proof {
                    if old(reader).models_stream() {
                        assert(old(reader).stream().take(len as int) =~= old(reader).stream());
                    }
                }
                return Ok(len);
            },
            Ok(n) => {
                match writer.write_all(vstd::slice::slice_subrange(tmp.as_slice(), 0, n)) {
                    Ok(_) => (),
                    Err(e) => {
                        proof {
                            assert(writer.sunk().take(old(writer).sunk().len() as int) =~= old(
                                writer,
                            ).sunk());
                        }
                        return Err(e);
                    },
                }
                proof {
                    assert(writer.sunk().take(old(writer).sunk().len() as int) =~= old(
                        writer,
                    ).sunk());
                }
                len = match len.checked_add(n as u64) {
                    Some(t) => t,
                    None => {
                        return Err(
                            Error::new_simple_message(
                                crate::error::SimpleMessage {
                                    kind: crate::error::ErrorKind::Other,
                                    message: "copied byte count overflows",
                                },
                            ),
                        );
                    },
                };
                fuel = RETRY_LIMIT;
            },
            Err(e) => {
                if !e.is_interrupted() || fuel == 0 {
                    return Err(e);
                }
                fuel = fuel - 1;
            },
        }
    }
}

} // verus!
