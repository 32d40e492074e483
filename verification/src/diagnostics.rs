//! What a failed compile reports to the client, and its wire form.
use vstd::prelude::*;

use crate::bytes::le_bytes;
use crate::codec::lemma_u32_round_trip;
use crate::reference_checks::unknown;
use crate::resolution::SourceLocation;
use crate::wire::{parse_u32, parse_u8, take_spec, Decode, DecodeError, Encode, EncodeError, Reader, WireFormat, Writer};

verus! {

/// Everything a failed compile reports.
#[derive(Debug, Clone, PartialEq, Eq)]
pub struct Diagnostics {
    pub stage: DiagnosticStage,
    pub items: Vec<Diagnostic>,
}

/// The pipeline stage that failed.
#[derive(Debug, Clone, Copy, PartialEq, Eq, Hash)]
pub enum DiagnosticStage {
    Script,
    Transform,
}

/// One reported failure and where in the script it was written, if known.
#[derive(Debug, Clone, PartialEq, Eq)]
pub struct Diagnostic {
    pub at: Option<SourceLocation>,
    pub message: String,
}

impl DeepView for DiagnosticStage {
    type V = DiagnosticStage;

    open spec fn deep_view(&self) -> DiagnosticStage {
        *self
    }
}

impl DeepView for Diagnostic {
    type V = (Option<(Seq<char>, u32)>, Seq<char>);

    open spec fn deep_view(&self) -> (Option<(Seq<char>, u32)>, Seq<char>) {
        (self.at.deep_view(), self.message@)
    }
}

impl DeepView for Diagnostics {
    type V = (DiagnosticStage, Seq<(Option<(Seq<char>, u32)>, Seq<char>)>);

    open spec fn deep_view(&self) -> (DiagnosticStage, Seq<(Option<(Seq<char>, u32)>, Seq<char>)>) {
        (self.stage, self.items.deep_view())
    }
}

/// Two values written one after the other: both encodings, or the first that fails.
pub open spec fn pair_encoding<A: Encode, B: Encode>(first: A::V, second: B::V) -> Result<Seq<u8>, EncodeError> {
    match A::encoding(first) {
        Ok(front) => match B::encoding(second) {
            Ok(back) => Ok(front + back),
            Err(e) => Err(e),
        },
        Err(e) => Err(e),
    }
}

/// Two values read one after the other, or the first error.
pub open spec fn pair_parse<A: Decode, B: Decode>(data: Seq<u8>, pos: int) -> Result<
    ((A::V, B::V), int),
    DecodeError,
> {
    match A::parse(data, pos) {
        Ok((first, middle)) => match B::parse(data, middle) {
            Ok((second, end)) => Ok(((first, second), end)),
            Err(e) => Err(e),
        },
        Err(e) => Err(e),
    }
}

/// Where two encodings stand one after the other, reading both gives both values back.
pub proof fn lemma_pair_round_trip<A: WireFormat, B: WireFormat>(
    first: <A as DeepView>::V,
    second: <B as DeepView>::V,
    data: Seq<u8>,
    pos: int,
)
    requires
        pair_encoding::<A, B>(first, second) is Ok,
        0 <= pos,
        pos + pair_encoding::<A, B>(first, second)->Ok_0.len() <= data.len(),
        data.subrange(pos, pos + pair_encoding::<A, B>(first, second)->Ok_0.len()) == pair_encoding::<A, B>(
            first,
            second,
        )->Ok_0,
    ensures
        pair_parse::<A, B>(data, pos) == Ok::<_, DecodeError>(
            ((first, second), pos + pair_encoding::<A, B>(first, second)->Ok_0.len()),
        ),
{
    let front = A::encoding(first)->Ok_0;
    let back = B::encoding(second)->Ok_0;
    let all = front + back;
    assert(data.subrange(pos, pos + front.len()) =~= all.subrange(0, front.len() as int));
    assert(all.subrange(0, front.len() as int) =~= front);
    A::lemma_round_trip(first, data, pos);
    let middle = pos + front.len();
    assert(data.subrange(middle, middle + back.len()) =~= all.subrange(front.len() as int, all.len() as int));
    assert(all.subrange(front.len() as int, all.len() as int) =~= back);
    B::lemma_round_trip(second, data, middle);
}

impl Encode for SourceLocation {
    open spec fn encoding(value: (Seq<char>, u32)) -> Result<Seq<u8>, EncodeError> {
        pair_encoding::<String, u32>(value.0, value.1)
    }

    fn encode(&self, writer: &mut Writer) -> (result: Result<(), EncodeError>) {
        self.chunk.encode(writer)?;
        self.line.encode(writer)?;
        assert(writer@ =~= old(writer)@ + Self::encoding(self.deep_view())->Ok_0);
        Ok(())
    }
}

impl Decode for SourceLocation {
    open spec fn parse(data: Seq<u8>, pos: int) -> Result<((Seq<char>, u32), int), DecodeError> {
        pair_parse::<String, u32>(data, pos)
    }

    fn decode(reader: &mut Reader<'_>) -> (result: Result<SourceLocation, DecodeError>) {
        let chunk: String = reader.decode()?;
        let line: u32 = reader.decode()?;
        Ok(SourceLocation { chunk, line })
    }
}

impl WireFormat for SourceLocation {
    proof fn lemma_round_trip(value: (Seq<char>, u32), data: Seq<u8>, pos: int) {
        lemma_pair_round_trip::<String, u32>(value.0, value.1, data, pos);
    }
}

impl Encode for DiagnosticStage {
    open spec fn encoding(value: DiagnosticStage) -> Result<Seq<u8>, EncodeError> {
        match value {
            DiagnosticStage::Script => Ok(seq![0u8]),
            DiagnosticStage::Transform => Ok(seq![1u8]),
        }
    }

    fn encode(&self, writer: &mut Writer) -> (result: Result<(), EncodeError>) {
        writer.u8(
            match self {
                DiagnosticStage::Script => 0,
                DiagnosticStage::Transform => 1,
            },
        );
        assert(writer@ =~= old(writer)@ + Self::encoding(*self)->Ok_0);
        Ok(())
    }
}

impl Decode for DiagnosticStage {
    open spec fn parse(data: Seq<u8>, pos: int) -> Result<(DiagnosticStage, int), DecodeError> {
        match parse_u8(data, pos) {
            Ok((tag, end)) => if tag == 0 {
                Ok((DiagnosticStage::Script, end))
            } else if tag == 1 {
                Ok((DiagnosticStage::Transform, end))
            } else {
                Err(DecodeError::InvalidDiscriminator { of_type: "DiagnosticStage", value: tag })
            },
            Err(e) => Err(e),
        }
    }

    fn decode(reader: &mut Reader<'_>) -> (result: Result<DiagnosticStage, DecodeError>) {
        match reader.u8()? {
            0 => Ok(DiagnosticStage::Script),
            1 => Ok(DiagnosticStage::Transform),
            value => Err(unknown("DiagnosticStage", value)),
        }
    }
}

impl WireFormat for DiagnosticStage {
    proof fn lemma_round_trip(value: DiagnosticStage, data: Seq<u8>, pos: int) {
        assert(data.subrange(pos, pos + 1)[0] == data[pos]);
    }
}

impl Encode for Diagnostic {
    open spec fn encoding(value: (Option<(Seq<char>, u32)>, Seq<char>)) -> Result<Seq<u8>, EncodeError> {
        pair_encoding::<Option<SourceLocation>, String>(value.0, value.1)
    }

    fn encode(&self, writer: &mut Writer) -> (result: Result<(), EncodeError>) {
        self.at.encode(writer)?;
        self.message.encode(writer)?;
        assert(writer@ =~= old(writer)@ + Self::encoding(self.deep_view())->Ok_0);
        Ok(())
    }
}

impl Decode for Diagnostic {
    open spec fn parse(data: Seq<u8>, pos: int) -> Result<((Option<(Seq<char>, u32)>, Seq<char>), int), DecodeError> {
        pair_parse::<Option<SourceLocation>, String>(data, pos)
    }

    fn decode(reader: &mut Reader<'_>) -> (result: Result<Diagnostic, DecodeError>) {
        let at: Option<SourceLocation> = reader.decode()?;
        let message: String = reader.decode()?;
        Ok(Diagnostic { at, message })
    }
}

impl WireFormat for Diagnostic {
    proof fn lemma_round_trip(value: (Option<(Seq<char>, u32)>, Seq<char>), data: Seq<u8>, pos: int) {
        lemma_pair_round_trip::<Option<SourceLocation>, String>(value.0, value.1, data, pos);
    }
}

impl Encode for Diagnostics {
    open spec fn encoding(value: (DiagnosticStage, Seq<(Option<(Seq<char>, u32)>, Seq<char>)>)) -> Result<
        Seq<u8>,
        EncodeError,
    > {
        pair_encoding::<DiagnosticStage, Vec<Diagnostic>>(value.0, value.1)
    }

    fn encode(&self, writer: &mut Writer) -> (result: Result<(), EncodeError>) {
        self.stage.encode(writer)?;
        self.items.encode(writer)?;
        assert(writer@ =~= old(writer)@ + Self::encoding(self.deep_view())->Ok_0);
        Ok(())
    }
}

impl Decode for Diagnostics {
    open spec fn parse(data: Seq<u8>, pos: int) -> Result<
        ((DiagnosticStage, Seq<(Option<(Seq<char>, u32)>, Seq<char>)>), int),
        DecodeError,
    > {
        pair_parse::<DiagnosticStage, Vec<Diagnostic>>(data, pos)
    }

    fn decode(reader: &mut Reader<'_>) -> (result: Result<Diagnostics, DecodeError>) {
        let stage: DiagnosticStage = reader.decode()?;
        let items: Vec<Diagnostic> = reader.decode()?;
        Ok(Diagnostics { stage, items })
    }
}

impl WireFormat for Diagnostics {
    proof fn lemma_round_trip(
        value: (DiagnosticStage, Seq<(Option<(Seq<char>, u32)>, Seq<char>)>),
        data: Seq<u8>,
        pos: int,
    ) {
        lemma_pair_round_trip::<DiagnosticStage, Vec<Diagnostic>>(value.0, value.1, data, pos);
    }
}

} // verus!
