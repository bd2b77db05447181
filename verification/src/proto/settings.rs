//! The payload of a SETTINGS frame: pairs of an identifier and a value.
use crate::buf::Cursor;
use crate::varint;
use crate::varint::VarInt;
use vstd::prelude::*;

verus! {

/// The identifier of a setting.
#[derive(Clone, Copy, Debug, PartialEq, Eq, Structural)]
pub struct SettingId(pub u64);

impl SettingId {
    pub const QPACK_MAX_TABLE_CAPACITY: u64 = 0x1;

    pub const MAX_HEADER_LIST_SIZE: u64 = 0x6;

    pub const QPACK_MAX_BLOCKED_STREAMS: u64 = 0x7;

    pub const ENABLE_CONNECT_PROTOCOL: u64 = 0x8;

    pub const H3_DATAGRAM: u64 = 0x33;

    pub const ENABLE_WEBTRANSPORT: u64 = 0x2b603742;

    pub const WEBTRANSPORT_MAX_SESSIONS: u64 = 0x2b603743;

    /// Is this a setting that is kept?
    pub open spec fn supported(self) -> bool {
        ||| self.0 == Self::QPACK_MAX_TABLE_CAPACITY
        ||| self.0 == Self::MAX_HEADER_LIST_SIZE
        ||| self.0 == Self::QPACK_MAX_BLOCKED_STREAMS
        ||| self.0 == Self::ENABLE_CONNECT_PROTOCOL
        ||| self.0 == Self::H3_DATAGRAM
        ||| self.0 == Self::ENABLE_WEBTRANSPORT
        ||| self.0 == Self::WEBTRANSPORT_MAX_SESSIONS
    }

    /// Is this a setting of HTTP/2 that must not be sent?
    pub open spec fn forbidden(self) -> bool {
        self.0 == 0x0 || 0x2 <= self.0 <= 0x5
    }

    pub fn is_supported(self) -> (yes: bool)
        ensures
            yes == self.supported(),
            yes <==> self.0 == 0x1 || self.0 == 0x6 || self.0 == 0x7 || self.0 == 0x8 || self.0
                == 0x33 || self.0 == 0x2b60_3742 || self.0 == 0x2b60_3743,
    {
        self.0 == Self::QPACK_MAX_TABLE_CAPACITY || self.0 == Self::MAX_HEADER_LIST_SIZE || self.0
            == Self::QPACK_MAX_BLOCKED_STREAMS || self.0 == Self::ENABLE_CONNECT_PROTOCOL || self.0
            == Self::H3_DATAGRAM || self.0 == Self::ENABLE_WEBTRANSPORT || self.0
            == Self::WEBTRANSPORT_MAX_SESSIONS
    }

    pub fn is_forbidden(self) -> (yes: bool)
        ensures
            yes == self.forbidden(),
            yes <==> self.0 == 0x0 || self.0 == 0x2 || self.0 == 0x3 || self.0 == 0x4 || self.0
                == 0x5,
    {
        self.0 == 0x0 || (0x2 <= self.0 && self.0 <= 0x5)
    }
}

/// What can be wrong with settings.
#[derive(Clone, Copy, Debug, PartialEq, Eq, Structural)]
pub enum SettingsError {
    /// More settings than can be held.
    Exceeded,
    /// An identifier or a value is cut short.
    Malformed,
    /// A setting that is there twice.
    Repeated(SettingId),
    /// A setting of HTTP/2.
    InvalidSettingId(u64),
    /// A value that the setting cannot have.
    InvalidSettingValue(SettingId, u64),
}

/// The settings of a SETTINGS frame, in the order in which they came.
#[derive(Debug, PartialEq, Eq)]
pub struct Settings {
    pub entries: Vec<(VarInt, VarInt)>,
}

/// The settings as plain numbers.
pub open spec fn entries_view(entries: Seq<(VarInt, VarInt)>) -> Seq<(u64, u64)> {
    entries.map_values(|e: (VarInt, VarInt)| (e.0@, e.1@))
}

/// Is there an entry for `id`?
pub open spec fn has_setting(entries: Seq<(u64, u64)>, id: u64) -> bool {
    exists|i: int| 0 <= i < entries.len() && (#[trigger] entries[i]).0 == id
}

/// The value of the first entry for `id`.
pub open spec fn first_setting(entries: Seq<(u64, u64)>, id: u64) -> Option<u64>
    decreases entries.len(),
{
    if entries.len() == 0 {
        None
    } else if entries[0].0 == id {
        Some(entries[0].1)
    } else {
        first_setting(entries.drop_first(), id)
    }
}

/// `kept` with the settings that `s` holds: supported ones are added, unknown
/// ones passed over.
pub open spec fn settings_from(kept: Seq<(u64, u64)>, s: Seq<u8>) -> Result<
    Seq<(u64, u64)>,
    SettingsError,
>
    decreases s.len(),
{
    if s.len() == 0 {
        Ok(kept)
    } else {
        match varint::decoded_pair(s) {
            None => Err(SettingsError::Malformed),
            Some((id, value, n)) => if SettingId(id).supported() {
                if has_setting(kept, id) {
                    Err(SettingsError::Repeated(SettingId(id)))
                } else {
                    settings_from(kept.push((id, value)), s.skip(n as int))
                }
            } else if SettingId(id).forbidden() {
                Err(SettingsError::InvalidSettingId(id))
            } else {
                settings_from(kept, s.skip(n as int))
            },
        }
    }
}

impl Settings {
    pub open spec fn view(&self) -> Seq<(u64, u64)> {
        entries_view(self.entries@)
    }

    /// The value of a setting, if it is there: that of its first entry, where it
    /// has more than one.
    pub fn get(&self, id: SettingId) -> (value: Option<VarInt>)
        ensures
            match value {
                Some(v) => first_setting(self.view(), id.0) == Some(v@),
                None => first_setting(self.view(), id.0) is None,
            },
            value is Some <==> has_setting(self.view(), id.0),
            match value {
                Some(v) => exists|i: int|
                    {
                        &&& 0 <= i < self.entries@.len()
                        &&& (#[trigger] self.entries@[i]).0@ == id.0
                        &&& self.entries@[i].1 == v
                        &&& forall|j: int| 0 <= j < i ==> (#[trigger] self.entries@[j]).0@ != id.0
                    },
                None => forall|i: int|
                    0 <= i < self.entries@.len() ==> (#[trigger] self.entries@[i]).0@ != id.0,
            },
    {
        let mut i: usize = 0;
        proof {
            assert(self.view().skip(0) =~= self.view());
        }
        while i < self.entries.len()
            invariant
                i <= self.entries@.len(),
                forall|j: int| 0 <= j < i ==> (#[trigger] self.view()[j]).0 != id.0,
                forall|j: int| 0 <= j < i ==> (#[trigger] self.entries@[j]).0@ != id.0,
                first_setting(self.view(), id.0) == first_setting(
                    self.view().skip(i as int),
                    id.0,
                ),
            decreases self.entries@.len() - i,
        {
            let entry: (VarInt, VarInt) = self.entries[i];
            proof {
                let rest = self.view().skip(i as int);
                assert(rest[0] == (entry.0@, entry.1@));
                assert(rest.drop_first() =~= self.view().skip(i + 1));
            }
            if entry.0.into_inner() == id.0 {
                proof {
                    assert(self.view()[i as int] == (id.0, entry.1@));
                }
                return Some(entry.1);
            }
            i = i + 1;
        }
        None
    }

    /// Reads settings up to where the cursor ends.
    pub fn decode(cur: &mut Cursor<'_>) -> (settings: Result<Settings, SettingsError>)
        requires
            old(cur).wf(),
        ensures
            final(cur).wf(),
            match settings {
                Ok(settings) => {
                    &&& settings_from(Seq::empty(), old(cur).rest()) == Ok::<_, SettingsError>(
                        settings.view(),
                    )
                    &&& final(cur).rest().len() == 0
                },
                Err(e) => settings_from(Seq::empty(), old(cur).rest()) == Err::<
                    Seq<(u64, u64)>,
                    _,
                >(e),
            },
    {
        let mut settings = Settings { entries: Vec::new() };
        let ghost whole = settings_from(Seq::empty(), cur.rest());
        proof {
            assert(settings.view() =~= Seq::<(u64, u64)>::empty());
        }
        while cur.remaining() > 0
            invariant
                cur.wf(),
                whole == settings_from(Seq::empty(), old(cur).rest()),
                whole == settings_from(settings.view(), cur.rest()),
            decreases cur.rest().len(),
        {
            let ghost s = cur.rest();
            let id: VarInt = match cur.get_var() {
                Some(id) => id,
                None => {
                    return Err(SettingsError::Malformed);
                },
            };
            let ghost a = (varint::decoded(s)->0).1;
            let value: VarInt = match cur.get_var() {
                Some(value) => value,
                None => {
                    return Err(SettingsError::Malformed);
                },
            };
            let ghost b = (varint::decoded(s.skip(a as int))->0).1;
            proof {
                assert(s.skip(a as int).skip(b as int) =~= s.skip((a + b) as int));
            }
            let number = id;
            let id = SettingId(number.into_inner());
            if id.is_supported() {
                if settings.get(id).is_some() {
                    return Err(SettingsError::Repeated(id));
                }
                let ghost before = settings.view();
                settings.entries.push((number, value));
                proof {
                    assert(settings.view() =~= before.push((id.0, value@)));
                }
            } else if id.is_forbidden() {
                return Err(SettingsError::InvalidSettingId(id.0));
            }
        }
        Ok(settings)
    }

    /// Appends the settings to `out`.
    pub fn encode(&self, out: &mut Vec<u8>)
        ensures
            final(out)@ == old(out)@ + wire_settings(self.view()),
    {
        let mut i: usize = 0;
        let ghost entries = self.view();
        proof {
            assert(entries.skip(0) =~= entries);
            assert(out@ =~= old(out)@ + Seq::<u8>::empty());
        }
        while i < self.entries.len()
            invariant
                i <= self.entries@.len(),
                entries == self.view(),
                out@ + wire_settings(entries.skip(i as int)) == old(out)@ + wire_settings(entries),
            decreases self.entries@.len() - i,
        {
            let ghost before = out@;
            let entry: (VarInt, VarInt) = self.entries[i];
            entry.0.encode(out);
            entry.1.encode(out);
            proof {
                let tail = entries.skip(i as int);
                assert(tail[0] == (entry.0@, entry.1@));
                assert(tail.drop_first() =~= entries.skip(i + 1));
                assert(out@ + wire_settings(entries.skip(i + 1)) =~= before + wire_settings(tail));
            }
            i = i + 1;
        }
        proof {
            assert(entries.skip(i as int) =~= Seq::<(u64, u64)>::empty());
            assert(out@ + Seq::<u8>::empty() =~= out@);
        }
    }
}

/// The bytes that stand for settings.
pub open spec fn wire_settings(entries: Seq<(u64, u64)>) -> Seq<u8>
    decreases entries.len(),
{
    if entries.len() == 0 {
        Seq::empty()
    } else {
        varint::encoded(entries[0].0) + varint::encoded(entries[0].1) + wire_settings(
            entries.drop_first(),
        )
    }
}

} // verus!
