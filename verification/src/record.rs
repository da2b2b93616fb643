//! The sequential record stream and the sentinel-framed UTF-16 string
//! segment embedded in a record's payload, with the rebase operation
//! that rewrites the recorded path's prefix while preserving every byte
//! outside the segment.
use crate::bytes::{
    bytes_of_units, copy_range, le_bytes4_of, le_i32_of, le_u16_of, le_u32_of, read_le_u16,
    read_le_u32, units_of_bytes,
};
use crate::ext::{utf16_decode, utf16_encode, utf16_of};
use crate::LogError;
use vstd::prelude::*;

verus! {

/// Ceiling on a record's declared payload size, guarding against
/// corrupt length fields.
pub const DATA_SIZE_CEILING: u32 = 0x8000000;

/// The action a record undoes, one of the known kinds.
#[derive(Clone, Copy, Debug, PartialEq, Eq, Structural)]
pub enum UninstallRecTyp {
    UserDefined,
    StartInstall,
    EndInstall,
    CompiledCode,
    Run,
    DeleteDirOrFiles,
    DeleteFile,
    DeleteGroupOrItem,
    IniDeleteEntry,
    IniDeleteSection,
    RegDeleteEntireKey,
    RegClearValue,
    RegDeleteKeyIfEmpty,
    RegDeleteValue,
    DecrementSharedCount,
    RefreshFileAssoc,
    MutexCheck,
}

/// Whether a numeric tag names a known record kind.
pub open spec fn tag_known(t: int) -> bool {
    t == 0x01 || t == 0x10 || t == 0x11 || t == 0x20 || (0x80 <= t <= 0x8C)
}

/// The record kind a known numeric tag names.
pub open spec fn typ_of_tag(t: int) -> UninstallRecTyp {
    if t == 0x01 {
        UninstallRecTyp::UserDefined
    } else if t == 0x10 {
        UninstallRecTyp::StartInstall
    } else if t == 0x11 {
        UninstallRecTyp::EndInstall
    } else if t == 0x20 {
        UninstallRecTyp::CompiledCode
    } else if t == 0x80 {
        UninstallRecTyp::Run
    } else if t == 0x81 {
        UninstallRecTyp::DeleteDirOrFiles
    } else if t == 0x82 {
        UninstallRecTyp::DeleteFile
    } else if t == 0x83 {
        UninstallRecTyp::DeleteGroupOrItem
    } else if t == 0x84 {
        UninstallRecTyp::IniDeleteEntry
    } else if t == 0x85 {
        UninstallRecTyp::IniDeleteSection
    } else if t == 0x86 {
        UninstallRecTyp::RegDeleteEntireKey
    } else if t == 0x87 {
        UninstallRecTyp::RegClearValue
    } else if t == 0x88 {
        UninstallRecTyp::RegDeleteKeyIfEmpty
    } else if t == 0x89 {
        UninstallRecTyp::RegDeleteValue
    } else if t == 0x8A {
        UninstallRecTyp::DecrementSharedCount
    } else if t == 0x8B {
        UninstallRecTyp::RefreshFileAssoc
    } else {
        UninstallRecTyp::MutexCheck
    }
}

/// The numeric tag of a record kind.
pub open spec fn tag_of(r: UninstallRecTyp) -> u16 {
    match r {
        UninstallRecTyp::UserDefined => 0x01,
        UninstallRecTyp::StartInstall => 0x10,
        UninstallRecTyp::EndInstall => 0x11,
        UninstallRecTyp::CompiledCode => 0x20,
        UninstallRecTyp::Run => 0x80,
        UninstallRecTyp::DeleteDirOrFiles => 0x81,
        UninstallRecTyp::DeleteFile => 0x82,
        UninstallRecTyp::DeleteGroupOrItem => 0x83,
        UninstallRecTyp::IniDeleteEntry => 0x84,
        UninstallRecTyp::IniDeleteSection => 0x85,
        UninstallRecTyp::RegDeleteEntireKey => 0x86,
        UninstallRecTyp::RegClearValue => 0x87,
        UninstallRecTyp::RegDeleteKeyIfEmpty => 0x88,
        UninstallRecTyp::RegDeleteValue => 0x89,
        UninstallRecTyp::DecrementSharedCount => 0x8A,
        UninstallRecTyp::RefreshFileAssoc => 0x8B,
        UninstallRecTyp::MutexCheck => 0x8C,
    }
}

impl UninstallRecTyp {
    /// Maps a known numeric tag to its record kind.
    pub fn from(i: u16) -> (r: UninstallRecTyp)
        requires
            tag_known(i as int),
        ensures
            r == typ_of_tag(i as int),
            tag_of(r) == i,
    {
        match i {
            0x01 => UninstallRecTyp::UserDefined,
            0x10 => UninstallRecTyp::StartInstall,
            0x11 => UninstallRecTyp::EndInstall,
            0x20 => UninstallRecTyp::CompiledCode,
            0x80 => UninstallRecTyp::Run,
            0x81 => UninstallRecTyp::DeleteDirOrFiles,
            0x82 => UninstallRecTyp::DeleteFile,
            0x83 => UninstallRecTyp::DeleteGroupOrItem,
            0x84 => UninstallRecTyp::IniDeleteEntry,
            0x85 => UninstallRecTyp::IniDeleteSection,
            0x86 => UninstallRecTyp::RegDeleteEntireKey,
            0x87 => UninstallRecTyp::RegClearValue,
            0x88 => UninstallRecTyp::RegDeleteKeyIfEmpty,
            0x89 => UninstallRecTyp::RegDeleteValue,
            0x8A => UninstallRecTyp::DecrementSharedCount,
            0x8B => UninstallRecTyp::RefreshFileAssoc,
            _ => UninstallRecTyp::MutexCheck,
        }
    }

    /// Whether a numeric tag names a known record kind.
    pub fn recognized(i: u16) -> (b: bool)
        ensures
            b == tag_known(i as int),
    {
        i == 0x01 || i == 0x10 || i == 0x11 || i == 0x20 || (0x80 <= i && i <= 0x8C)
    }

    /// The numeric tag of this record kind.
    pub fn tag(self) -> (t: u16)
        ensures
            t == tag_of(self),
    {
        match self {
            UninstallRecTyp::UserDefined => 0x01,
            UninstallRecTyp::StartInstall => 0x10,
            UninstallRecTyp::EndInstall => 0x11,
            UninstallRecTyp::CompiledCode => 0x20,
            UninstallRecTyp::Run => 0x80,
            UninstallRecTyp::DeleteDirOrFiles => 0x81,
            UninstallRecTyp::DeleteFile => 0x82,
            UninstallRecTyp::DeleteGroupOrItem => 0x83,
            UninstallRecTyp::IniDeleteEntry => 0x84,
            UninstallRecTyp::IniDeleteSection => 0x85,
            UninstallRecTyp::RegDeleteEntireKey => 0x86,
            UninstallRecTyp::RegClearValue => 0x87,
            UninstallRecTyp::RegDeleteKeyIfEmpty => 0x88,
            UninstallRecTyp::RegDeleteValue => 0x89,
            UninstallRecTyp::DecrementSharedCount => 0x8A,
            UninstallRecTyp::RefreshFileAssoc => 0x8B,
            UninstallRecTyp::MutexCheck => 0x8C,
        }
    }
}

/// One opaque log entry: a tagged action, its auxiliary value, and its
/// owned payload bytes.
pub struct FileRec {
    /// The action this record undoes.
    pub typ: UninstallRecTyp,
    /// Auxiliary value whose meaning depends on `typ`; opaque here.
    pub extra_data: u32,
    /// The record's payload, exactly the declared number of bytes.
    pub data: Vec<u8>,
}

/// The first reason a record at `pos` is rejected, or `None` when it
/// decodes: the stream must hold the two tag bytes, the type tag must
/// be known, the remaining fixed bytes must be present, the declared
/// payload size must not exceed the ceiling, and the payload must be
/// present in full.
pub open spec fn rec_check(b: Seq<u8>, pos: int) -> Option<LogError> {
    if pos + 2 > b.len() {
        Some(LogError::IoError)
    } else if !tag_known(le_u16_of(b.subrange(pos, pos + 2))) {
        Some(LogError::UnrecognizedRecordType)
    } else if pos + 10 > b.len() {
        Some(LogError::IoError)
    } else if le_u32_of(b.subrange(pos + 6, pos + 10)) > 0x8000000 {
        Some(LogError::OversizedPayload)
    } else if pos + 10 + le_u32_of(b.subrange(pos + 6, pos + 10)) > b.len() {
        Some(LogError::IoError)
    } else {
        None
    }
}

/// The serialized form of a record: its tag, auxiliary value and
/// declared payload size as little-endian fields, then the payload.
pub open spec fn rec_bytes(typ: UninstallRecTyp, extra_data: u32, data: Seq<u8>) -> Seq<u8> {
    seq![
        (tag_of(typ) as int % 0x100) as u8,
        (tag_of(typ) as int / 0x100) as u8,
    ] + le_bytes4_of(extra_data as int) + le_bytes4_of(data.len() as int) + data
}

impl FileRec {
    /// Decodes the record that starts at `pos` in `b` and returns it
    /// with the position just past its payload. Accepts exactly when
    /// `rec_check` does and returns the reason `rec_check` gives
    /// otherwise; on success the fields equal the values the record's
    /// layout assigns them.
    pub fn decode(b: &Vec<u8>, pos: usize) -> (r: Result<(FileRec, usize), LogError>)
        ensures
            r is Err <==> rec_check(b@, pos as int) is Some,
            r matches Err(e) ==> rec_check(b@, pos as int) == Some(e),
            r matches Ok(p) ==> {
                let size = le_u32_of(b@.subrange(pos + 6, pos + 10));
                &&& p.0.typ == typ_of_tag(le_u16_of(b@.subrange(pos as int, pos + 2)))
                &&& p.0.extra_data == le_u32_of(b@.subrange(pos + 2, pos + 6))
                &&& p.0.data@ == b@.subrange(pos + 10, pos + 10 + size)
                &&& p.1 == pos + 10 + size
            },
    {
        let n = b.len();
        if pos > n || n - pos < 2 {
            return Err(LogError::IoError);
        }
        let typ_raw = read_le_u16(b, pos);
        if !UninstallRecTyp::recognized(typ_raw) {
            return Err(LogError::UnrecognizedRecordType);
        }
        if n - pos < 10 {
            return Err(LogError::IoError);
        }
        let extra_data = read_le_u32(b, pos + 2);
        let size32 = read_le_u32(b, pos + 6);
        if size32 > DATA_SIZE_CEILING {
            return Err(LogError::OversizedPayload);
        }
        let size = size32 as usize;
        if n - (pos + 10) < size {
            return Err(LogError::IoError);
        }
        let data = copy_range(b, pos + 10, pos + 10 + size);
        let typ = UninstallRecTyp::from(typ_raw);
        Ok((FileRec { typ, extra_data, data }, pos + 10 + size))
    }

    /// Decodes the embedded string segment of this record's payload and
    /// returns the text together with the segment's old byte length.
    /// Fails with the reason `framing_check` gives, or with
    /// `MalformedStringFraming` when the segment's code units are not
    /// valid UTF-16; succeeds otherwise, with text whose UTF-16
    /// encoding is exactly the segment's code units.
    pub fn get_string(&self) -> (r: Result<(String, usize), LogError>)
        ensures
            r is Err <==> (framing_check(self.data@) is Some || !(exists|s: Seq<char>|
                utf16_of(s) == seg_units(self.data@))),
            r matches Err(e) ==> (framing_check(self.data@) matches Some(e2) ==> e == e2),
            r matches Err(e) ==> (framing_check(self.data@) is None ==> e
                == LogError::MalformedStringFraming),
            r matches Ok(p) ==> utf16_of(p.0@) == seg_units(self.data@) && p.1 == seg_len(
                self.data@,
            ),
    {
        let m = match check_framing(&self.data) {
            Ok(m) => m,
            Err(e) => {
                return Err(e);
            },
        };
        let units = units_from(&self.data, 5, m);
        match utf16_decode(&units) {
            Some(s) => Ok((s, m)),
            None => Err(LogError::MalformedStringFraming),
        }
    }

    /// Rewrites the embedded path: when the recorded path starts with
    /// `from`, that prefix is replaced by `to` and the payload is
    /// rebuilt around the new segment with every byte after the old
    /// segment preserved at its shifted offset; when it does not, the
    /// payload is rebuilt unchanged. The record's type and auxiliary
    /// value are untouched, and a rejected payload is left exactly as
    /// it was. On success the new segment is itself the encoding of
    /// some text — of `to` followed by the path's tail whenever the
    /// path starts with `from` — and a nonempty new segment followed
    /// by the closing sentinel leaves the payload well framed around
    /// exactly that segment.
    pub fn rebase(&mut self, from: &str, to: &str) -> (r: Result<(), LogError>)
        ensures
            final(self).typ == old(self).typ,
            final(self).extra_data == old(self).extra_data,
            r is Err ==> final(self).data@ == old(self).data@,
            framing_check(old(self).data@) matches Some(e) ==> r == Err::<(), LogError>(e),
            framing_check(old(self).data@) is None ==> {
                let d = old(self).data@;
                let units = seg_units(d);
                let nu = rebased_units(units, utf16_of(from@), utf16_of(to@));
                &&& !(exists|s: Seq<char>| utf16_of(s) == units) ==> r == Err::<(), LogError>(
                    LogError::MalformedStringFraming,
                )
                &&& (exists|s: Seq<char>| utf16_of(s) == units) ==> {
                    &&& !tail_decodable(units, utf16_of(from@)) ==> r == Err::<(), LogError>(
                        LogError::MalformedStringFraming,
                    )
                    &&& tail_decodable(units, utf16_of(from@)) ==> {
                        &&& (r is Ok <==> splice_fits(d, nu))
                        &&& r is Err ==> r == Err::<(), LogError>(LogError::OversizedPayload)
                    }
                    &&& r is Ok ==> {
                        &&& final(self).data@ == spliced(d, nu)
                        &&& exists|p2: Seq<char>| utf16_of(p2) == nu
                        &&& forall|path: Seq<char>| #![trigger utf16_of(path)]
                            utf16_of(path) == units && from@.is_prefix_of(path) ==> nu == utf16_of(
                                to@ + path.skip(from@.len() as int),
                            )
                        &&& d.len() > 5 + seg_len(d) && nu.len() > 0 ==> {
                            &&& framing_check(final(self).data@) is None
                            &&& seg_len(final(self).data@) == 2 * nu.len()
                            &&& seg_units(final(self).data@) == nu
                        }
                    }
                }
            },
    {
        let m = match check_framing(&self.data) {
            Ok(m) => m,
            Err(e) => {
                return Err(e);
            },
        };
        let units = units_from(&self.data, 5, m);
        let ghost units_v = units@;
        if utf16_decode(&units).is_none() {
            return Err(LogError::MalformedStringFraming);
        }
        let fu = utf16_encode(from);
        let tu = utf16_encode(to);
        let ghost nu_spec = rebased_units(units_v, utf16_of(from@), utf16_of(to@));
        let matched = is_prefix(&fu, &units);
        let mut nu: Vec<u16>;
        if matched {
            let mut rest: Vec<u16> = Vec::new();
            let mut j: usize = fu.len();
            while j < units.len()
                invariant
                    fu@.len() <= j <= units@.len(),
                    units@ == units_v,
                    rest@ == units_v.subrange(fu@.len() as int, j as int),
                decreases units@.len() - j,
            {
                rest.push(units[j]);
                proof {
                    assert(rest@ =~= units_v.subrange(fu@.len() as int, j + 1));
                }
                j = j + 1;
            }
            proof {
                assert(rest@ =~= units_v.skip(fu@.len() as int));
            }
            if utf16_decode(&rest).is_none() {
                return Err(LogError::MalformedStringFraming);
            }
            nu = Vec::new();
            let mut i: usize = 0;
            while i < tu.len()
                invariant
                    0 <= i <= tu@.len(),
                    nu@ == tu@.take(i as int),
                decreases tu@.len() - i,
            {
                nu.push(tu[i]);
                proof {
                    assert(nu@ =~= tu@.take(i + 1));
                }
                i = i + 1;
            }
            proof {
                assert(tu@.take(tu@.len() as int) =~= tu@);
            }
            let mut k0: usize = 0;
            while k0 < rest.len()
                invariant
                    0 <= k0 <= rest@.len(),
                    rest@ == units_v.skip(fu@.len() as int),
                    nu@ == tu@ + rest@.take(k0 as int),
                decreases rest@.len() - k0,
            {
                nu.push(rest[k0]);
                proof {
                    assert(nu@ =~= tu@ + rest@.take(k0 + 1));
                }
                k0 = k0 + 1;
            }
            proof {
                assert(rest@.take(rest@.len() as int) =~= rest@);
                assert(nu@ =~= nu_spec);
            }
        } else {
            nu = units;
        }
        let nu_len = nu.len();
        if nu_len > 0x3FFFFFFF {
            return Err(LogError::OversizedPayload);
        }
        let dl = self.data.len();
        let tail_len = dl - (5 + m);
        let head_len = 5usize + 2 * nu_len;
        if tail_len > usize::MAX - head_len {
            return Err(LogError::OversizedPayload);
        }
        let su_new: u64 = if nu_len == 0 {
            0
        } else {
            0x100000000u64 - 2 * (nu_len as u64)
        };
        let mut out: Vec<u8> = Vec::new();
        out.push(0xFE);
        out.push((su_new % 0x100) as u8);
        out.push(((su_new / 0x100) % 0x100) as u8);
        out.push(((su_new / 0x10000) % 0x100) as u8);
        out.push(((su_new / 0x1000000) % 0x100) as u8);
        let ghost prefix5 = seq![0xFEu8] + le_bytes4_of(-2 * (nu@.len() as int));
        proof {
            assert(out@ =~= prefix5);
        }
        let mut k: usize = 0;
        while k < nu_len
            invariant
                0 <= k <= nu_len,
                nu_len == nu@.len(),
                nu_len <= 0x3FFFFFFF,
                prefix5 == seq![0xFEu8] + le_bytes4_of(-2 * (nu@.len() as int)),
                out@ == prefix5 + bytes_of_units(nu@.take(k as int)),
            decreases nu_len - k,
        {
            let u = nu[k];
            out.push((u % 0x100) as u8);
            out.push((u / 0x100) as u8);
            proof {
                let prev = bytes_of_units(nu@.take(k as int));
                let cur = bytes_of_units(nu@.take(k + 1));
                let two = seq![(u % 0x100) as u8, (u / 0x100) as u8];
                assert forall|i: int| 0 <= i < cur.len() implies cur[i] == (prev + two)[i] by {
                    if i < 2 * k {
                        assert(nu@.take(k + 1)[i / 2] == nu@.take(k as int)[i / 2]);
                    } else {
                        assert(i / 2 == k as int);
                    }
                }
                assert(cur =~= prev + two);
                assert(out@ =~= prefix5 + cur);
            }
            k = k + 1;
        }
        proof {
            assert(nu@.take(nu_len as int) =~= nu@);
        }
        let mut t: usize = 5 + m;
        while t < dl
            invariant
                5 + m <= t <= dl,
                dl == self.data@.len(),
                prefix5 == seq![0xFEu8] + le_bytes4_of(-2 * (nu@.len() as int)),
                out@ == prefix5 + bytes_of_units(nu@) + self.data@.subrange(5 + m, t as int),
            decreases dl - t,
        {
            out.push(self.data[t]);
            proof {
                assert(out@ =~= prefix5 + bytes_of_units(nu@) + self.data@.subrange(
                    5 + m,
                    t + 1,
                ));
            }
            t = t + 1;
        }
        proof {
            assert(self.data@.subrange(5 + m, dl as int) =~= self.data@.skip(5 + seg_len(
                self.data@,
            )));
            assert(out@ =~= spliced(self.data@, nu@));
            if matched {
                let p_rest = choose|p: Seq<char>| utf16_of(p) == units_v.skip(fu@.len() as int);
                assert(utf16_of(to@ + p_rest) == tu@ + utf16_of(p_rest));
                assert(utf16_of(to@ + p_rest) == nu_spec);
            }
            assert forall|path: Seq<char>|
                utf16_of(path) == units_v && from@.is_prefix_of(path) implies nu_spec == utf16_of(
                to@ + path.skip(from@.len() as int),
            ) by {
                let rest_c = path.skip(from@.len() as int);
                assert(path =~= from@ + rest_c);
                assert(utf16_of(from@ + rest_c) == fu@ + utf16_of(rest_c));
                assert(units_v == fu@ + utf16_of(rest_c));
                assert(fu@.is_prefix_of(units_v)) by {
                    assert(units_v.subrange(0, fu@.len() as int) =~= fu@);
                }
                assert(units_v.skip(fu@.len() as int) =~= utf16_of(rest_c));
                assert(utf16_of(to@ + rest_c) == tu@ + utf16_of(rest_c));
            }
            if dl > 5 + m && nu@.len() > 0 {
                lemma_spliced_reframes(self.data@, nu@);
            }
        }
        self.data = out;
        Ok(())
    }
}

/// The first reason a payload's string framing is rejected, or `None`
/// when it is well formed: the payload must open with the sentinel
/// `0xFE`, hold a negative little-endian 32-bit size field, end with
/// the sentinel `0xFF`, and the size's magnitude must be even and lie
/// within the payload.
pub open spec fn framing_check(d: Seq<u8>) -> Option<LogError> {
    if d.len() < 1 {
        Some(LogError::IoError)
    } else if d[0] != 0xFE {
        Some(LogError::MalformedStringFraming)
    } else if d.len() < 5 {
        Some(LogError::IoError)
    } else if le_i32_of(d.subrange(1, 5)) >= 0 {
        Some(LogError::MalformedStringFraming)
    } else if d[d.len() - 1] != 0xFF {
        Some(LogError::MalformedStringFraming)
    } else if (-le_i32_of(d.subrange(1, 5))) % 2 != 0 {
        Some(LogError::MalformedStringFraming)
    } else if 5 + (-le_i32_of(d.subrange(1, 5))) > d.len() {
        Some(LogError::MalformedStringFraming)
    } else {
        None
    }
}

/// Byte length of the encoded string segment: the magnitude of the
/// negative size field.
pub open spec fn seg_len(d: Seq<u8>) -> int {
    -le_i32_of(d.subrange(1, 5))
}

/// The UTF-16 code units of the embedded string segment.
pub open spec fn seg_units(d: Seq<u8>) -> Seq<u16> {
    units_of_bytes(d.subrange(5, 5 + seg_len(d)))
}

/// The code units after the prefix substitution: `from_u` replaced by
/// `to_u` when `from_u` is a prefix, the units unchanged otherwise.
pub open spec fn rebased_units(units: Seq<u16>, from_u: Seq<u16>, to_u: Seq<u16>) -> Seq<u16> {
    if from_u.is_prefix_of(units) {
        to_u + units.skip(from_u.len() as int)
    } else {
        units
    }
}

/// Whether the units after the matched prefix are themselves the
/// encoding of some text; holds vacuously when the prefix does not
/// match.
pub open spec fn tail_decodable(units: Seq<u16>, from_u: Seq<u16>) -> bool {
    from_u.is_prefix_of(units) ==> exists|p: Seq<char>|
        utf16_of(p) == units.skip(from_u.len() as int)
}

/// Whether the payload rebuilt around `nu` fits the machine's limits:
/// the negated size field must fit a signed 32-bit integer, and the
/// new total length must fit `usize`.
pub open spec fn splice_fits(d: Seq<u8>, nu: Seq<u16>) -> bool {
    2 * nu.len() <= 0x7FFFFFFE && d.len() - seg_len(d) + 2 * nu.len() <= usize::MAX
}

/// The payload rebuilt around new code units: the opening sentinel,
/// the negated size of the new segment, the units' bytes, then every
/// byte that followed the old segment, unchanged at its shifted offset.
pub open spec fn spliced(d: Seq<u8>, nu: Seq<u16>) -> Seq<u8> {
    seq![0xFEu8] + le_bytes4_of(-2 * (nu.len() as int)) + bytes_of_units(nu) + d.skip(
        5 + seg_len(d),
    )
}

/// Validates the string framing of a payload and returns the byte
/// length of the embedded segment.
fn check_framing(d: &Vec<u8>) -> (r: Result<usize, LogError>)
    ensures
        r is Err <==> framing_check(d@) is Some,
        r matches Err(e) ==> framing_check(d@) == Some(e),
        r matches Ok(m) ==> m == seg_len(d@),
{
    let n = d.len();
    if n < 1 {
        return Err(LogError::IoError);
    }
    if d[0] != 0xFE {
        return Err(LogError::MalformedStringFraming);
    }
    if n < 5 {
        return Err(LogError::IoError);
    }
    let su = read_le_u32(d, 1);
    if su < 0x80000000 {
        return Err(LogError::MalformedStringFraming);
    }
    let m64: u64 = 0x100000000u64 - su as u64;
    proof {
        assert(seg_len(d@) == m64);
    }
    if d[n - 1] != 0xFF {
        return Err(LogError::MalformedStringFraming);
    }
    if m64 % 2 != 0 {
        return Err(LogError::MalformedStringFraming);
    }
    if m64 > (n as u64) - 5 {
        return Err(LogError::MalformedStringFraming);
    }
    Ok(m64 as usize)
}

/// Reads `len / 2` little-endian UTF-16 code units starting at `off`.
fn units_from(b: &Vec<u8>, off: usize, len: usize) -> (r: Vec<u16>)
    requires
        off + len <= b@.len(),
        len % 2 == 0,
    ensures
        r@ == units_of_bytes(b@.subrange(off as int, off + len)),
{
    let ghost w = b@.subrange(off as int, off + len);
    let n = b.len();
    let half = len / 2;
    let mut r: Vec<u16> = Vec::new();
    let mut k: usize = 0;
    while k < half
        invariant
            0 <= k <= half,
            half == len / 2,
            len % 2 == 0,
            off + len <= b@.len(),
            n == b@.len(),
            w == b@.subrange(off as int, off + len),
            r@ == units_of_bytes(w).take(k as int),
        decreases half - k,
    {
        let u = read_le_u16(b, off + 2 * k);
        r.push(u);
        proof {
            let uw = units_of_bytes(w);
            assert(w[2 * (k as int)] == b@[off + 2 * k] && w[2 * (k as int) + 1] == b@[off + 2 * k
                + 1]);
            assert(u == uw[k as int]);
            assert(r@ =~= uw.take(k + 1));
        }
        k = k + 1;
    }
    proof {
        assert(units_of_bytes(w).take(half as int) =~= units_of_bytes(w));
    }
    r
}

/// Whether the units of `p` open the units of `s`.
fn is_prefix(p: &Vec<u16>, s: &Vec<u16>) -> (b: bool)
    ensures
        b == p@.is_prefix_of(s@),
{
    if p.len() > s.len() {
        return false;
    }
    let mut i: usize = 0;
    while i < p.len()
        invariant
            0 <= i <= p@.len() <= s@.len(),
            forall|j: int| 0 <= j < i ==> p@[j] == s@[j],
        decreases p@.len() - i,
    {
        if p[i] != s[i] {
            proof {
                assert(!p@.is_prefix_of(s@)) by {
                    if p@.is_prefix_of(s@) {
                        assert(p@[i as int] == s@.subrange(0, p@.len() as int)[i as int]);
                    }
                }
            }
            return false;
        }
        i = i + 1;
    }
    proof {
        assert(p@ =~= s@.subrange(0, p@.len() as int));
    }
    true
}

/// Decoding a record and serializing its fields again reproduces the
/// bytes it was decoded from, exactly.
pub proof fn lemma_rec_roundtrip(b: Seq<u8>, pos: int)
    requires
        0 <= pos,
        rec_check(b, pos) is None,
    ensures
        rec_bytes(
            typ_of_tag(le_u16_of(b.subrange(pos, pos + 2))),
            le_u32_of(b.subrange(pos + 2, pos + 6)) as u32,
            b.subrange(pos + 10, pos + 10 + le_u32_of(b.subrange(pos + 6, pos + 10))),
        ) =~= b.subrange(pos, pos + 10 + le_u32_of(b.subrange(pos + 6, pos + 10))),
{
    let t = le_u16_of(b.subrange(pos, pos + 2));
    let typ = typ_of_tag(t);
    assert(tag_of(typ) == t);
    let s2 = b.subrange(pos, pos + 2);
    crate::bytes::lemma_le_u16_digits(s2);
    let s6 = b.subrange(pos + 2, pos + 6);
    crate::bytes::lemma_le_u32_roundtrip(s6);
    let s10 = b.subrange(pos + 6, pos + 10);
    crate::bytes::lemma_le_u32_roundtrip(s10);
    let size = le_u32_of(s10);
    let data = b.subrange(pos + 10, pos + 10 + size);
    assert(data.len() == size);
    assert(le_bytes4_of(data.len() as int) =~= s10);
    assert(le_bytes4_of(le_u32_of(s6)) =~= s6);
}

/// A payload rebuilt around a nonempty segment, with at least the
/// closing sentinel after the old segment, is itself well framed, and
/// its segment holds exactly the new unit sequence.
pub proof fn lemma_spliced_reframes(d: Seq<u8>, nu: Seq<u16>)
    requires
        framing_check(d) is None,
        d.len() > 5 + seg_len(d),
        0 < nu.len(),
        2 * nu.len() <= 0x7FFFFFFE,
    ensures
        framing_check(spliced(d, nu)) is None,
        seg_len(spliced(d, nu)) == 2 * nu.len(),
        seg_units(spliced(d, nu)) == nu,
{
    let sp = spliced(d, nu);
    let m = seg_len(d);
    crate::bytes::lemma_le_bytes4_value(-2 * (nu.len() as int));
    assert(sp.subrange(1, 5) =~= le_bytes4_of(-2 * (nu.len() as int)));
    assert(le_i32_of(sp.subrange(1, 5)) == -2 * nu.len());
    assert(sp[0] == 0xFE);
    assert(sp.len() == 5 + 2 * nu.len() + (d.len() - 5 - m));
    assert(sp[sp.len() - 1] == d[d.len() - 1]);
    assert(sp.subrange(5, 5 + 2 * (nu.len() as int)) =~= crate::bytes::bytes_of_units(nu));
    crate::bytes::lemma_units_inverse(nu);
}

/// Rebasing a payload whose recorded path does not start with the
/// requested prefix rebuilds the payload byte-for-byte identical.
pub proof fn lemma_rebase_mismatch_identity(d: Seq<u8>, from_u: Seq<u16>, to_u: Seq<u16>)
    requires
        framing_check(d) is None,
        !from_u.is_prefix_of(seg_units(d)),
    ensures
        spliced(d, rebased_units(seg_units(d), from_u, to_u)) =~= d,
{
    let m = seg_len(d);
    let units = seg_units(d);
    let seg = d.subrange(5, 5 + m);
    assert(units.len() == m / 2);
    assert(2 * units.len() == m);
    let sf = d.subrange(1, 5);
    assert(le_i32_of(sf) == -m);
    crate::bytes::lemma_le_i32_roundtrip(sf);
    assert(le_bytes4_of(-2 * (units.len() as int)) =~= sf);
    crate::bytes::lemma_units_roundtrip(seg);
    assert(bytes_of_units(units) =~= seg);
    assert(spliced(d, units) =~= d);
}

/// When the recorded path does start with the requested prefix, the
/// rebuilt payload's total length differs from the old one by exactly
/// twice the difference in length, in UTF-16 code units, between the
/// new prefix and the old.
pub proof fn lemma_rebase_length_delta(d: Seq<u8>, from_u: Seq<u16>, to_u: Seq<u16>)
    requires
        framing_check(d) is None,
        from_u.is_prefix_of(seg_units(d)),
    ensures
        spliced(d, rebased_units(seg_units(d), from_u, to_u)).len() == d.len() + 2 * to_u.len()
            - 2 * from_u.len(),
{
    let m = seg_len(d);
    let units = seg_units(d);
    assert(2 * units.len() == m);
    let nu = rebased_units(units, from_u, to_u);
    assert(nu.len() == to_u.len() + units.len() - from_u.len());
    assert(spliced(d, nu).len() == 5 + 2 * nu.len() + (d.len() - 5 - m));
}

} // verus!
