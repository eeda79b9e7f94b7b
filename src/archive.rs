use crate::items::{EventFull, WithLen};
use crate::netpod::{ScalarType, Shape};
use vstd::prelude::*;
use vstd::string::{StringExecFns, StringSliceAdditionalSpecFns};

verus! {

/// The year and month that an archive data file covers.
#[derive(PartialEq, Eq, Structural, Clone, Copy, Debug)]
pub struct DataFilename {
    pub year: u32,
    pub month: u32,
}

/// Why a name is not that of an archive data file.
#[derive(PartialEq, Eq, Structural, Clone, Copy, Debug)]
pub enum FilenameError {
    NotPb,
    TooShort,
    NoColon,
    NoUnderscore,
    BadNumber,
}

/// Value of a sequence of decimal digits.
pub open spec fn digits_value(s: Seq<u8>) -> nat
    decreases s.len(),
{
    if s.len() == 0 {
        0
    } else {
        digits_value(s.drop_last()) * 10 + (s.last() - 48) as nat
    }
}

/// Every byte is an ASCII decimal digit.
pub open spec fn all_digits(s: Seq<u8>) -> bool {
    forall|i: int| 0 <= i < s.len() ==> 48 <= #[trigger] s[i] <= 57
}

/// How `str::parse::<u32>` reads a short string: an optional `+`, then at
/// least one decimal digit and nothing else.
pub open spec fn parse_u32_spec(s: Seq<u8>) -> Option<u32> {
    let d = if s.len() > 0 && s[0] == 43 {
        s.drop_first()
    } else {
        s
    };
    if d.len() == 0 || !all_digits(d) {
        None
    } else {
        Some(digits_value(d) as u32)
    }
}

proof fn lemma_digits_bound(s: Seq<u8>)
    requires
        all_digits(s),
    ensures
        digits_value(s) < crate::endian::pow256(s.len()),
    decreases s.len(),
{
    if s.len() > 0 {
        assert(all_digits(s.drop_last())) by {
            assert forall|i: int| 0 <= i < s.drop_last().len() implies 48 <= #[trigger] s.drop_last()[i]
                <= 57 by {
                assert(s.drop_last()[i] == s[i]);
            }
        }
        lemma_digits_bound(s.drop_last());
        let p = crate::endian::pow256((s.len() - 1) as nat);
        let v = digits_value(s.drop_last());
        assert(s.last() == s[s.len() - 1]);
        assert(v * 10 + 9 < 256 * p) by (nonlinear_arith)
            requires
                v < p,
        ;
    }
}

/// Reads a short decimal number as `str::parse::<u32>` does.
fn parse_u32_short(b: &[u8]) -> (r: Option<u32>)
    requires
        b@.len() <= 4,
    ensures
        r == parse_u32_spec(b@),
{
    let n = b.len();
    let start: usize = if n > 0 && b[0] == 43 {
        1
    } else {
        0
    };
    let ghost d = if n > 0 && b@[0] == 43 {
        b@.drop_first()
    } else {
        b@
    };
    assert(d =~= b@.subrange(start as int, n as int));
    if start == n {
        return None;
    }
    let mut v: u32 = 0;
    let mut i: usize = start;
    while i < n
        invariant
            start <= i <= n,
            n <= 4,
            n == b@.len(),
            d == b@.subrange(start as int, n as int),
            d == (if n > 0 && b@[0] == 43 {
                b@.drop_first()
            } else {
                b@
            }),
            all_digits(b@.subrange(start as int, i as int)),
            v == digits_value(b@.subrange(start as int, i as int)),
        decreases n - i,
    {
        let c = b[i];
        let ghost pre = b@.subrange(start as int, i as int);
        proof {
            lemma_digits_bound(pre);
            crate::endian::lemma_pow256_mono(pre.len(), 3);
            reveal_with_fuel(crate::endian::pow256, 4);
            assert(b@.subrange(start as int, i + 1).drop_last() =~= pre);
        }
        if c < 48 || c > 57 {
            proof {
                assert(d[i - start] == c);
                assert(!(48 <= d[i - start] <= 57));
                assert(!all_digits(d));
            }
            return None;
        }
        v = v * 10 + (c - 48) as u32;
        i = i + 1;
        proof {
            let now = b@.subrange(start as int, i as int);
            assert forall|k: int| 0 <= k < now.len() implies 48 <= #[trigger] now[k] <= 57 by {
                if k < pre.len() {
                    assert(now[k] == pre[k]);
                }
            }
        }
    }
    Some(v)
}

/// What the name of an archive data file states: it ends in `.pb`, is at
/// least 12 bytes long, and its last 11 bytes are `:YYYY_MM.pb`.
pub open spec fn data_filename_spec(s: Seq<u8>) -> Result<DataFilename, FilenameError> {
    let n = s.len() as int;
    if !(n >= 3 && s[n - 3] == 46 && s[n - 2] == 112 && s[n - 1] == 98) {
        Err(FilenameError::NotPb)
    } else if n < 12 {
        Err(FilenameError::TooShort)
    } else if s[n - 11] != 58 {
        Err(FilenameError::NoColon)
    } else if s[n - 6] != 95 {
        Err(FilenameError::NoUnderscore)
    } else {
        match (parse_u32_spec(s.subrange(n - 10, n - 6)), parse_u32_spec(s.subrange(n - 5, n - 3))) {
            (Some(year), Some(month)) => Ok(DataFilename { year, month }),
            _ => Err(FilenameError::BadNumber),
        }
    }
}

/// Reads the year and month from the name of an archive data file.
pub fn parse_data_filename(s: &str) -> (r: Result<DataFilename, FilenameError>)
    ensures
        r == data_filename_spec(s.spec_bytes()),
{
    let b = s.as_bytes();
    let n = b.len();
    if !(n >= 3 && b[n - 3] == 46 && b[n - 2] == 112 && b[n - 1] == 98) {
        return Err(FilenameError::NotPb);
    }
    if n < 12 {
        return Err(FilenameError::TooShort);
    }
    if b[n - 11] != 58 {
        return Err(FilenameError::NoColon);
    }
    if b[n - 6] != 95 {
        return Err(FilenameError::NoUnderscore);
    }
    let year = parse_u32_short(&b[n - 10..n - 6]);
    let month = parse_u32_short(&b[n - 5..n - 3]);
    match (year, month) {
        (Some(year), Some(month)) => Ok(DataFilename { year, month }),
        _ => Err(FilenameError::BadNumber),
    }
}

/// Scalar events of an archive, by value type.
pub enum ScalarPlainEvents {
    Byte(EventFull),
    Short(EventFull),
    Int(EventFull),
    Float(EventFull),
    Double(EventFull),
}

/// Waveform events of an archive, by value type, with their element count.
pub enum WavePlainEvents {
    Byte(EventFull, u32),
    Short(EventFull, u32),
    Int(EventFull, u32),
    Float(EventFull, u32),
    Double(EventFull, u32),
}

/// Events as the archive stores them.
pub enum PlainEvents {
    Scalar(ScalarPlainEvents),
    Wave(WavePlainEvents),
}

/// Waveform events reduced along the waveform axis: to one bin, or to `n`.
pub enum XBinnedEvents {
    Scalar(ScalarPlainEvents),
    SingleBinWave(WavePlainEvents),
    MultiBinWave(WavePlainEvents),
}

/// A batch of archive events, plain or reduced along the waveform axis.
pub enum EventsItem {
    Plain(PlainEvents),
    XBinnedEvents(XBinnedEvents),
}

/// The value type of a batch of scalar events.
pub open spec fn scalar_type_of(k: ScalarPlainEvents) -> ScalarType {
    match k {
        ScalarPlainEvents::Byte(_) => ScalarType::I8,
        ScalarPlainEvents::Short(_) => ScalarType::I16,
        ScalarPlainEvents::Int(_) => ScalarType::I32,
        ScalarPlainEvents::Float(_) => ScalarType::F32,
        ScalarPlainEvents::Double(_) => ScalarType::F64,
    }
}

/// The value type and shape of a batch of waveform events.
pub open spec fn wave_type_of(k: WavePlainEvents) -> (ScalarType, Shape) {
    match k {
        WavePlainEvents::Byte(_, n) => (ScalarType::I8, Shape::Wave(n)),
        WavePlainEvents::Short(_, n) => (ScalarType::I16, Shape::Wave(n)),
        WavePlainEvents::Int(_, n) => (ScalarType::I32, Shape::Wave(n)),
        WavePlainEvents::Float(_, n) => (ScalarType::F32, Shape::Wave(n)),
        WavePlainEvents::Double(_, n) => (ScalarType::F64, Shape::Wave(n)),
    }
}

/// The archive's name of a value type.
pub open spec fn type_name_of(t: ScalarType) -> Seq<char> {
    match t {
        ScalarType::I8 => "Byte"@,
        ScalarType::I16 => "Short"@,
        ScalarType::I32 => "Int"@,
        ScalarType::F32 => "Float"@,
        _ => "Double"@,
    }
}

/// The name of an item's variant: `Plain(`, the kind of events with an
/// opening parenthesis, the archive's name of the value type, and `))`.
pub open spec fn variant_name_spec(e: EventsItem) -> Seq<char> {
    let (kind, t) = match e {
        EventsItem::Plain(PlainEvents::Scalar(k)) => ("Scalar("@, scalar_type_of(k)),
        EventsItem::Plain(PlainEvents::Wave(k)) => ("Wave("@, wave_type_of(k).0),
        EventsItem::XBinnedEvents(XBinnedEvents::Scalar(k)) => ("Scalar("@, scalar_type_of(k)),
        EventsItem::XBinnedEvents(XBinnedEvents::SingleBinWave(k)) => ("SingleBinWave("@, wave_type_of(k).0),
        EventsItem::XBinnedEvents(XBinnedEvents::MultiBinWave(k)) => ("MultiBinWave("@, wave_type_of(k).0),
    };
    "Plain("@ + kind + type_name_of(t) + "))"@
}

/// The shape of the values of an item.
pub open spec fn shape_of(e: EventsItem) -> Shape {
    match e {
        EventsItem::Plain(PlainEvents::Scalar(_)) => Shape::Scalar,
        EventsItem::Plain(PlainEvents::Wave(w)) => wave_type_of(w).1,
        EventsItem::XBinnedEvents(XBinnedEvents::Scalar(_)) => Shape::Scalar,
        EventsItem::XBinnedEvents(XBinnedEvents::SingleBinWave(_)) => Shape::Scalar,
        EventsItem::XBinnedEvents(XBinnedEvents::MultiBinWave(w)) => wave_type_of(w).1,
    }
}

impl ScalarPlainEvents {
    fn name(&self) -> (r: &'static str)
        ensures
            r@ == type_name_of(scalar_type_of(*self)),
    {
        match self {
            ScalarPlainEvents::Byte(_) => "Byte",
            ScalarPlainEvents::Short(_) => "Short",
            ScalarPlainEvents::Int(_) => "Int",
            ScalarPlainEvents::Float(_) => "Float",
            ScalarPlainEvents::Double(_) => "Double",
        }
    }

    fn scalar_type(&self) -> (r: ScalarType)
        ensures
            r == scalar_type_of(*self),
    {
        match self {
            ScalarPlainEvents::Byte(_) => ScalarType::I8,
            ScalarPlainEvents::Short(_) => ScalarType::I16,
            ScalarPlainEvents::Int(_) => ScalarType::I32,
            ScalarPlainEvents::Float(_) => ScalarType::F32,
            ScalarPlainEvents::Double(_) => ScalarType::F64,
        }
    }

    fn events(&self) -> (r: &EventFull) {
        match self {
            ScalarPlainEvents::Byte(k) => k,
            ScalarPlainEvents::Short(k) => k,
            ScalarPlainEvents::Int(k) => k,
            ScalarPlainEvents::Float(k) => k,
            ScalarPlainEvents::Double(k) => k,
        }
    }
}

impl WavePlainEvents {
    fn name(&self) -> (r: &'static str)
        ensures
            r@ == type_name_of(wave_type_of(*self).0),
    {
        match self {
            WavePlainEvents::Byte(..) => "Byte",
            WavePlainEvents::Short(..) => "Short",
            WavePlainEvents::Int(..) => "Int",
            WavePlainEvents::Float(..) => "Float",
            WavePlainEvents::Double(..) => "Double",
        }
    }

    fn events(&self) -> (r: &EventFull) {
        match self {
            WavePlainEvents::Byte(k, _) => k,
            WavePlainEvents::Short(k, _) => k,
            WavePlainEvents::Int(k, _) => k,
            WavePlainEvents::Float(k, _) => k,
            WavePlainEvents::Double(k, _) => k,
        }
    }

    fn type_info(&self) -> (r: (ScalarType, Shape))
        ensures
            r == wave_type_of(*self),
    {
        match self {
            WavePlainEvents::Byte(_, n) => (ScalarType::I8, Shape::Wave(*n)),
            WavePlainEvents::Short(_, n) => (ScalarType::I16, Shape::Wave(*n)),
            WavePlainEvents::Int(_, n) => (ScalarType::I32, Shape::Wave(*n)),
            WavePlainEvents::Float(_, n) => (ScalarType::F32, Shape::Wave(*n)),
            WavePlainEvents::Double(_, n) => (ScalarType::F64, Shape::Wave(*n)),
        }
    }
}

impl EventsItem {
    /// The values are waveforms.
    pub fn is_wave(&self) -> (r: bool)
        ensures
            r == (shape_of(*self) is Wave),
    {
        match self {
            EventsItem::Plain(PlainEvents::Scalar(_)) => false,
            EventsItem::Plain(PlainEvents::Wave(_)) => true,
            EventsItem::XBinnedEvents(XBinnedEvents::Scalar(_)) => false,
            EventsItem::XBinnedEvents(XBinnedEvents::SingleBinWave(_)) => false,
            EventsItem::XBinnedEvents(XBinnedEvents::MultiBinWave(_)) => true,
        }
    }

    /// The shape of the values.
    pub fn shape(&self) -> (r: Shape)
        ensures
            r == shape_of(*self),
    {
        match self {
            EventsItem::Plain(PlainEvents::Scalar(_)) => Shape::Scalar,
            EventsItem::Plain(PlainEvents::Wave(k)) => k.type_info().1,
            EventsItem::XBinnedEvents(XBinnedEvents::Scalar(_)) => Shape::Scalar,
            EventsItem::XBinnedEvents(XBinnedEvents::SingleBinWave(_)) => Shape::Scalar,
            EventsItem::XBinnedEvents(XBinnedEvents::MultiBinWave(k)) => k.type_info().1,
        }
    }

    /// The type of the values.
    pub fn scalar_type(&self) -> (r: ScalarType)
        ensures
            r == match *self {
                EventsItem::Plain(PlainEvents::Scalar(k)) => scalar_type_of(k),
                EventsItem::Plain(PlainEvents::Wave(k)) => wave_type_of(k).0,
                EventsItem::XBinnedEvents(XBinnedEvents::Scalar(k)) => scalar_type_of(k),
                EventsItem::XBinnedEvents(XBinnedEvents::SingleBinWave(k)) => wave_type_of(k).0,
                EventsItem::XBinnedEvents(XBinnedEvents::MultiBinWave(k)) => wave_type_of(k).0,
            },
    {
        match self {
            EventsItem::Plain(PlainEvents::Scalar(k)) => k.scalar_type(),
            EventsItem::Plain(PlainEvents::Wave(k)) => k.type_info().0,
            EventsItem::XBinnedEvents(XBinnedEvents::Scalar(k)) => k.scalar_type(),
            EventsItem::XBinnedEvents(XBinnedEvents::SingleBinWave(k)) => k.type_info().0,
            EventsItem::XBinnedEvents(XBinnedEvents::MultiBinWave(k)) => k.type_info().0,
        }
    }

    /// A name of the variant, such as `Plain(Scalar(Int))`.
    pub fn variant_name(&self) -> (r: String)
        ensures
            r@ == variant_name_spec(*self),
    {
        let mut s = String::from_str("Plain(");
        match self {
            EventsItem::Plain(PlainEvents::Scalar(k)) => {
                s.append("Scalar(");
                s.append(k.name());
            },
            EventsItem::Plain(PlainEvents::Wave(k)) => {
                s.append("Wave(");
                s.append(k.name());
            },
            EventsItem::XBinnedEvents(XBinnedEvents::Scalar(k)) => {
                s.append("Scalar(");
                s.append(k.name());
            },
            EventsItem::XBinnedEvents(XBinnedEvents::SingleBinWave(k)) => {
                s.append("SingleBinWave(");
                s.append(k.name());
            },
            EventsItem::XBinnedEvents(XBinnedEvents::MultiBinWave(k)) => {
                s.append("MultiBinWave(");
                s.append(k.name());
            },
        }
        s.append("))");
        proof {
            assert(s@ =~= variant_name_spec(*self));
        }
        s
    }

    /// Value type and shape of a plain item.
    pub fn type_info(&self) -> (r: (ScalarType, Shape))
        requires
            self is Plain,
        ensures
            match *self {
                EventsItem::Plain(PlainEvents::Scalar(k)) => r == (scalar_type_of(k), Shape::Scalar),
                EventsItem::Plain(PlainEvents::Wave(k)) => r == wave_type_of(k),
                _ => false,
            },
    {
        match self {
            EventsItem::Plain(PlainEvents::Scalar(k)) => match k {
                ScalarPlainEvents::Byte(_) => (ScalarType::I8, Shape::Scalar),
                ScalarPlainEvents::Short(_) => (ScalarType::I16, Shape::Scalar),
                ScalarPlainEvents::Int(_) => (ScalarType::I32, Shape::Scalar),
                ScalarPlainEvents::Float(_) => (ScalarType::F32, Shape::Scalar),
                ScalarPlainEvents::Double(_) => (ScalarType::F64, Shape::Scalar),
            },
            EventsItem::Plain(PlainEvents::Wave(k)) => k.type_info(),
            EventsItem::XBinnedEvents(_) => (ScalarType::I8, Shape::Scalar),
        }
    }
}

impl WithLen for EventsItem {
    fn len(&self) -> usize {
        match self {
            EventsItem::Plain(PlainEvents::Scalar(k)) => k.events().tss.len(),
            EventsItem::Plain(PlainEvents::Wave(k)) => k.events().tss.len(),
            EventsItem::XBinnedEvents(XBinnedEvents::Scalar(k)) => k.events().tss.len(),
            EventsItem::XBinnedEvents(XBinnedEvents::SingleBinWave(k)) => k.events().tss.len(),
            EventsItem::XBinnedEvents(XBinnedEvents::MultiBinWave(k)) => k.events().tss.len(),
        }
    }
}

} // verus!
