use vstd::prelude::*;
use vstd::slice::slice_subrange;

use crate::error::HidppError;

verus! {

/// HID++ report IDs.
pub const SHORT_REPORT_ID: u8 = 0x10;
pub const LONG_REPORT_ID: u8 = 0x11;

/// HID++ report sizes (including report ID).
pub const SHORT_REPORT_LEN: usize = 7;
pub const LONG_REPORT_LEN: usize = 20;

/// Special feature index indicating an error response.
pub const ERROR_MSG: u8 = 0xFF;

/// A HID++ 2.0 report (either short or long).
#[derive(Debug, Clone)]
pub struct HidppReport {
    /// Raw report bytes.
    pub data: [u8; LONG_REPORT_LEN],
    /// Actual length (7 for short, 20 for long).
    pub len: usize,
}

/// Byte 3 of a report: the function ID in the high nibble, the software ID
/// (its low nibble) in the low nibble.
pub open spec fn header_byte(function_id: u8, sw_id: u8) -> u8 {
    ((function_id << 4u8) | (sw_id & 0x0Fu8)) as u8
}

/// The report length that a report ID announces (0 for an unknown ID).
pub open spec fn len_for_id(id: u8) -> usize {
    if id == SHORT_REPORT_ID {
        SHORT_REPORT_LEN
    } else if id == LONG_REPORT_ID {
        LONG_REPORT_LEN
    } else {
        0
    }
}

/// The report ID that belongs to a report length.
pub open spec fn id_for_len(len: usize) -> u8 {
    if len == SHORT_REPORT_LEN {
        SHORT_REPORT_ID
    } else {
        LONG_REPORT_ID
    }
}

/// `n` zero bytes.
pub open spec fn zeros(n: int) -> Seq<u8> {
    Seq::new(n as nat, |i: int| 0u8)
}

/// What parsing raw bytes read from a device gives: the 20 stored bytes and
/// the report length, or the length error.
pub open spec fn parse_report(data: Seq<u8>) -> Result<(Seq<u8>, usize), HidppError> {
    if data.len() == 0 {
        Err(HidppError::InvalidLength { expected: SHORT_REPORT_LEN, got: 0 })
    } else if len_for_id(data[0]) == 0 {
        Err(HidppError::InvalidLength { expected: SHORT_REPORT_LEN, got: data.len() as usize })
    } else if data.len() < len_for_id(data[0]) {
        Err(HidppError::InvalidLength { expected: len_for_id(data[0]), got: data.len() as usize })
    } else {
        let len = len_for_id(data[0]);
        Ok((data.take(len as int) + zeros(LONG_REPORT_LEN - len), len))
    }
}

/// A freshly built report: the given header bytes, zero parameters.
pub open spec fn is_fresh_report(
    data: Seq<u8>,
    report_id: u8,
    device_index: u8,
    feature_index: u8,
    function_id: u8,
    sw_id: u8,
) -> bool {
    &&& data.len() == LONG_REPORT_LEN
    &&& data[0] == report_id
    &&& data[1] == device_index
    &&& data[2] == feature_index
    &&& data[3] == header_byte(function_id, sw_id)
    &&& forall|i: int| 4 <= i < LONG_REPORT_LEN ==> data[i] == 0u8
}

impl HidppReport {
    /// The bytes that go on the wire.
    pub open spec fn wire_bytes(&self) -> Seq<u8> {
        self.data@.take(self.len as int)
    }

    /// The parameter bytes (offset 4 up to the report length).
    pub open spec fn param_bytes(&self) -> Seq<u8> {
        self.data@.subrange(4, self.len as int)
    }

    pub open spec fn device_index_of(&self) -> u8 {
        self.data@[1]
    }

    pub open spec fn feature_index_of(&self) -> u8 {
        self.data@[2]
    }

    pub open spec fn function_id_of(&self) -> u8 {
        self.data@[3] >> 4u8
    }

    pub open spec fn sw_id_of(&self) -> u8 {
        self.data@[3] & 0x0Fu8
    }

    /// A short or a long report.
    pub open spec fn wf(&self) -> bool {
        self.len == SHORT_REPORT_LEN || self.len == LONG_REPORT_LEN
    }

    /// Create a new long report.
    pub fn new_long(device_index: u8, feature_index: u8, function_id: u8, sw_id: u8) -> (r: Self)
        ensures
            r.len == LONG_REPORT_LEN,
            is_fresh_report(r.data@, LONG_REPORT_ID, device_index, feature_index, function_id, sw_id),
    {
        let mut data = [0u8; 20];
        data[0] = LONG_REPORT_ID;
        data[1] = device_index;
        data[2] = feature_index;
        data[3] = (function_id << 4) | (sw_id & 0x0F);
        HidppReport { data, len: LONG_REPORT_LEN }
    }

    /// Create a new short report.
    pub fn new_short(device_index: u8, feature_index: u8, function_id: u8, sw_id: u8) -> (r: Self)
        ensures
            r.len == SHORT_REPORT_LEN,
            is_fresh_report(r.data@, SHORT_REPORT_ID, device_index, feature_index, function_id, sw_id),
    {
        let mut data = [0u8; 20];
        data[0] = SHORT_REPORT_ID;
        data[1] = device_index;
        data[2] = feature_index;
        data[3] = (function_id << 4) | (sw_id & 0x0F);
        HidppReport { data, len: SHORT_REPORT_LEN }
    }

    pub fn report_id(&self) -> (r: u8)
        ensures
            r == self.data@[0],
    {
        self.data[0]
    }

    pub fn device_index(&self) -> (r: u8)
        ensures
            r == self.device_index_of(),
    {
        self.data[1]
    }

    pub fn feature_index(&self) -> (r: u8)
        ensures
            r == self.feature_index_of(),
    {
        self.data[2]
    }

    pub fn function_id(&self) -> (r: u8)
        ensures
            r == self.function_id_of(),
    {
        self.data[3] >> 4
    }

    pub fn sw_id(&self) -> (r: u8)
        ensures
            r == self.sw_id_of(),
    {
        self.data[3] & 0x0F
    }

    /// Get the parameter bytes (starting at offset 4).
    pub fn params(&self) -> (p: &[u8])
        requires
            4 <= self.len <= LONG_REPORT_LEN,
        ensures
            p@ == self.param_bytes(),
    {
        slice_subrange(self.data.as_slice(), 4, self.len)
    }

    /// Set a parameter byte at the given offset (0-based from param start).
    pub fn set_param(&mut self, offset: usize, value: u8)
        requires
            offset < LONG_REPORT_LEN - 4,
        ensures
            final(self).len == old(self).len,
            final(self).data@ == old(self).data@.update(4 + offset, value),
    {
        self.data[4 + offset] = value;
    }

    /// Get the raw bytes to write to the device.
    pub fn as_bytes(&self) -> (b: &[u8])
        requires
            self.len <= LONG_REPORT_LEN,
        ensures
            b@ == self.wire_bytes(),
    {
        slice_subrange(self.data.as_slice(), 0, self.len)
    }

    /// Parse a report from raw bytes read from the device.
    pub fn from_bytes(data: &[u8]) -> (r: Result<Self, HidppError>)
        ensures
            match r {
                Ok(report) => parse_report(data@) == Ok::<(Seq<u8>, usize), HidppError>(
                    (report.data@, report.len),
                ),
                Err(e) => parse_report(data@) == Err::<(Seq<u8>, usize), HidppError>(e),
            },
    {
        if data.len() == 0 {
            return Err(HidppError::InvalidLength { expected: SHORT_REPORT_LEN, got: 0 });
        }
        let len = if data[0] == SHORT_REPORT_ID {
            SHORT_REPORT_LEN
        } else if data[0] == LONG_REPORT_ID {
            LONG_REPORT_LEN
        } else {
            return Err(HidppError::InvalidLength { expected: SHORT_REPORT_LEN, got: data.len() });
        };
        if data.len() < len {
            return Err(HidppError::InvalidLength { expected: len, got: data.len() });
        }
        let mut report_data = [0u8; 20];
        let mut i: usize = 0;
        while i < len
            invariant
                i <= len,
                len <= LONG_REPORT_LEN,
                len <= data@.len(),
                report_data@.len() == LONG_REPORT_LEN,
                forall|k: int| 0 <= k < i ==> report_data@[k] == data@[k],
                forall|k: int| i <= k < LONG_REPORT_LEN ==> report_data@[k] == 0u8,
            decreases len - i,
        {
            report_data[i] = data[i];
            i = i + 1;
        }
        assert(report_data@ =~= data@.take(len as int) + zeros(LONG_REPORT_LEN - len));
        Ok(HidppReport { data: report_data, len })
    }

    /// Check if this is an error response.
    pub fn is_error(&self) -> (b: bool)
        ensures
            b == (self.feature_index_of() == ERROR_MSG),
    {
        self.feature_index() == ERROR_MSG
    }
}

/// Header law: the function ID and software ID packed by the constructors are
/// what the accessors read back (the function ID when it fits in a nibble,
/// the software ID as its low nibble).
pub proof fn lemma_header_roundtrip(function_id: u8, sw_id: u8)
    ensures
        function_id < 16 ==> header_byte(function_id, sw_id) >> 4u8 == function_id,
        header_byte(function_id, sw_id) >> 4u8 == function_id & 0x0Fu8,
        header_byte(function_id, sw_id) & 0x0Fu8 == sw_id & 0x0Fu8,
{
    assert(function_id < 16 ==> ((function_id << 4u8) | (sw_id & 0x0Fu8)) >> 4u8 == function_id)
        by (bit_vector);
    assert(((function_id << 4u8) | (sw_id & 0x0Fu8)) >> 4u8 == function_id & 0x0Fu8) by (bit_vector);
    assert(((function_id << 4u8) | (sw_id & 0x0Fu8)) & 0x0Fu8 == sw_id & 0x0Fu8) by (bit_vector);
}

/// Wire law: the bytes a well-formed report puts on the wire parse back to
/// the same report, when its report ID matches its length and the bytes past
/// its length are zero (as in every report the constructors build).
pub proof fn lemma_wire_roundtrip(data: Seq<u8>, len: usize)
    requires
        data.len() == LONG_REPORT_LEN,
        len == SHORT_REPORT_LEN || len == LONG_REPORT_LEN,
        data[0] == id_for_len(len),
        forall|i: int| len <= i < LONG_REPORT_LEN ==> data[i] == 0u8,
    ensures
        parse_report(data.take(len as int)) == Ok::<(Seq<u8>, usize), HidppError>((data, len)),
{
    let bytes = data.take(len as int);
    assert(bytes[0] == data[0]);
    assert(bytes.take(len as int) + zeros(LONG_REPORT_LEN - len) =~= data);
}

/// Constructor law: the reports `new_long` and `new_short` build parse back
/// from their wire bytes.
pub proof fn lemma_fresh_report_roundtrip(
    data: Seq<u8>,
    len: usize,
    device_index: u8,
    feature_index: u8,
    function_id: u8,
    sw_id: u8,
)
    requires
        len == SHORT_REPORT_LEN || len == LONG_REPORT_LEN,
        is_fresh_report(data, id_for_len(len), device_index, feature_index, function_id, sw_id),
    ensures
        parse_report(data.take(len as int)) == Ok::<(Seq<u8>, usize), HidppError>((data, len)),
{
    lemma_wire_roundtrip(data, len);
}

/// Parameter law: after `set_param(offset, value)` the parameter bytes hold
/// `value` at `offset` (inside the report's length) and are otherwise unchanged.
pub proof fn lemma_set_param_read_back(data: Seq<u8>, len: usize, offset: usize, value: u8)
    requires
        data.len() == LONG_REPORT_LEN,
        4 <= len <= LONG_REPORT_LEN,
        offset < len - 4,
    ensures
        data.update(4 + offset, value).subrange(4, len as int)
            == data.subrange(4, len as int).update(offset as int, value),
{
    assert(data.update(4 + offset, value).subrange(4, len as int) =~= data.subrange(4, len as int).update(
        offset as int,
        value,
    ));
}

} // verus!
