use crate::combinators::{
    encode_optional, encode_sequence, fits_optional, fits_sequence, lemma_optional_round_trip,
    lemma_sequence_round_trip, parse_optional, parse_sequence, read_optional, read_sequence,
    view_opt, view_seq, write_optional, write_sequence,
};
use crate::error::{agrees, failure, DecodeError, DecodeLimits, ErrorKind};
use crate::varint::{
    lemma_varint_round_trip, lemma_varint_signed_round_trip, parse_varint, parse_varint_signed,
    read_varint, read_varint_signed, varint_bytes, varint_bytes_signed, write_varint,
    write_varint_signed,
};
use crate::wire::{encode_text, lemma_split, parse_text, WireFormat};
use vstd::prelude::*;

verus! {

broadcast use vstd::array::group_array_axioms;

/// A player's 128-bit identifier, carried as its 16 bytes in wire order.
#[derive(Clone, Copy, Debug, PartialEq, Eq)]
pub struct PlayerIdentity {
    pub bytes: [u8; 16],
}

impl View for PlayerIdentity {
    type V = Seq<u8>;

    open spec fn view(&self) -> Seq<u8> {
        self.bytes@
    }
}

impl WireFormat for PlayerIdentity {
    /// Sixteen raw bytes.
    open spec fn spec_parse(s: Seq<u8>, pos: int, lim: DecodeLimits) -> Result<(Seq<u8>, int), DecodeError> {
        if s.len() - pos < 16 {
            Err(failure(ErrorKind::UnexpectedEndOfInput, pos))
        } else {
            Ok((s.subrange(pos, pos + 16), pos + 16))
        }
    }

    open spec fn spec_encode(v: Seq<u8>) -> Seq<u8> {
        v
    }

    open spec fn spec_fits(v: Seq<u8>, lim: DecodeLimits) -> bool {
        v.len() == 16
    }

    fn read_into(buf: &[u8], pos: usize, lim: DecodeLimits) -> (r: Result<(PlayerIdentity, usize), DecodeError>) {
        if buf.len() - pos < 16 {
            return Err(DecodeError::new(ErrorKind::UnexpectedEndOfInput, pos));
        }
        let bytes: [u8; 16] = [
            buf[pos],
            buf[pos + 1],
            buf[pos + 2],
            buf[pos + 3],
            buf[pos + 4],
            buf[pos + 5],
            buf[pos + 6],
            buf[pos + 7],
            buf[pos + 8],
            buf[pos + 9],
            buf[pos + 10],
            buf[pos + 11],
            buf[pos + 12],
            buf[pos + 13],
            buf[pos + 14],
            buf[pos + 15],
        ];
        assert(bytes@ =~= buf@.subrange(pos as int, pos + 16));
        Ok((PlayerIdentity { bytes }, pos + 16))
    }

    fn write_into(&self, out: &mut Vec<u8>) {
        let ghost start = out@;
        let mut j: usize = 0;
        while j < 16
            invariant
                start == old(out)@,
                j <= 16,
                self.bytes@.len() == 16,
                out@ == start + self.bytes@.subrange(0, j as int),
            decreases 16 - j,
        {
            out.push(self.bytes[j]);
            j = j + 1;
            assert(out@ =~= start + self.bytes@.subrange(0, j as int));
        }
        assert(self.bytes@.subrange(0, 16) =~= self.bytes@);
    }

    proof fn lemma_round_trip(v: Seq<u8>, s: Seq<u8>, pos: int, lim: DecodeLimits) {
    }
}

/// A rich-text display override, carried as the JSON text of the component;
/// the component format itself is not interpreted here.
#[derive(Clone, Debug, PartialEq, Eq)]
pub struct RichText {
    pub json: String,
}

impl View for RichText {
    type V = Seq<char>;

    open spec fn view(&self) -> Seq<char> {
        self.json@
    }
}

impl WireFormat for RichText {
    /// The JSON text as a string.
    open spec fn spec_parse(s: Seq<u8>, pos: int, lim: DecodeLimits) -> Result<(Seq<char>, int), DecodeError> {
        parse_text(s, pos, lim)
    }

    open spec fn spec_encode(v: Seq<char>) -> Seq<u8> {
        encode_text(v)
    }

    open spec fn spec_fits(v: Seq<char>, lim: DecodeLimits) -> bool {
        <String as WireFormat>::spec_fits(v, lim)
    }

    fn read_into(buf: &[u8], pos: usize, lim: DecodeLimits) -> (r: Result<(RichText, usize), DecodeError>) {
        match String::read_into(buf, pos, lim) {
            Ok((json, p)) => Ok((RichText { json }, p)),
            Err(e) => Err(e),
        }
    }

    fn write_into(&self, out: &mut Vec<u8>) {
        self.json.write_into(out);
    }

    proof fn lemma_round_trip(v: Seq<char>, s: Seq<u8>, pos: int, lim: DecodeLimits) {
        <String as WireFormat>::lemma_round_trip(v, s, pos, lim);
    }
}

/// The model of a [`PlayerProperty`].
pub struct PropertyView {
    pub name: Seq<char>,
    pub value: Seq<char>,
    pub signature: Option<Seq<char>>,
}

/// A named property of a joining player, optionally signed.
#[derive(Clone, Debug, PartialEq, Eq)]
pub struct PlayerProperty {
    pub name: String,
    pub value: String,
    pub signature: Option<String>,
}

impl View for PlayerProperty {
    type V = PropertyView;

    open spec fn view(&self) -> PropertyView {
        PropertyView { name: self.name@, value: self.value@, signature: view_opt(self.signature) }
    }
}

impl WireFormat for PlayerProperty {
    /// Name, value, optional signature.
    open spec fn spec_parse(s: Seq<u8>, pos: int, lim: DecodeLimits) -> Result<(PropertyView, int), DecodeError> {
        match parse_text(s, pos, lim) {
            Err(e) => Err(e),
            Ok((name, p1)) => match parse_text(s, p1, lim) {
                Err(e) => Err(e),
                Ok((value, p2)) => match parse_optional::<String>(s, p2, lim) {
                    Err(e) => Err(e),
                    Ok((signature, p3)) => Ok((PropertyView { name, value, signature }, p3)),
                },
            },
        }
    }

    open spec fn spec_encode(v: PropertyView) -> Seq<u8> {
        encode_text(v.name) + (encode_text(v.value) + encode_optional::<String>(v.signature))
    }

    open spec fn spec_fits(v: PropertyView, lim: DecodeLimits) -> bool {
        &&& <String as WireFormat>::spec_fits(v.name, lim)
        &&& <String as WireFormat>::spec_fits(v.value, lim)
        &&& fits_optional::<String>(v.signature, lim)
    }

    fn read_into(buf: &[u8], pos: usize, lim: DecodeLimits) -> (r: Result<(PlayerProperty, usize), DecodeError>) {
        let (name, p1) = match String::read_into(buf, pos, lim) {
            Ok(x) => x,
            Err(e) => return Err(e),
        };
        let (value, p2) = match String::read_into(buf, p1, lim) {
            Ok(x) => x,
            Err(e) => return Err(e),
        };
        let (signature, p3) = match read_optional::<String>(buf, p2, lim) {
            Ok(x) => x,
            Err(e) => return Err(e),
        };
        Ok((PlayerProperty { name, value, signature }, p3))
    }

    fn write_into(&self, out: &mut Vec<u8>) {
        self.name.write_into(out);
        self.value.write_into(out);
        write_optional(out, &self.signature);
        assert(final(out)@ =~= old(out)@ + Self::spec_encode(self@));
    }

    proof fn lemma_round_trip(v: PropertyView, s: Seq<u8>, pos: int, lim: DecodeLimits) {
        let a = encode_text(v.name);
        let b = encode_text(v.value);
        let c = encode_optional::<String>(v.signature);
        lemma_split(s, pos, a, b + c);
        lemma_split(s, pos + a.len(), b, c);
        <String as WireFormat>::lemma_round_trip(v.name, s, pos, lim);
        <String as WireFormat>::lemma_round_trip(v.value, s, pos + a.len(), lim);
        lemma_optional_round_trip::<String>(v.signature, s, pos + a.len() + b.len(), lim);
    }
}

/// The model of an [`AddPlayer`] record.
pub struct AddPlayerView {
    pub uuid: Seq<u8>,
    pub name: Seq<char>,
    pub properties: Seq<PropertyView>,
    pub gamemode: u32,
    pub ping: i32,
    pub display_name: Option<Seq<char>>,
}

/// A player joining the roster.
#[derive(Clone, Debug, PartialEq, Eq)]
pub struct AddPlayer {
    pub uuid: PlayerIdentity,
    pub name: String,
    pub properties: Vec<PlayerProperty>,
    pub gamemode: u32,
    pub ping: i32,
    pub display_name: Option<RichText>,
}

impl View for AddPlayer {
    type V = AddPlayerView;

    open spec fn view(&self) -> AddPlayerView {
        AddPlayerView {
            uuid: self.uuid@,
            name: self.name@,
            properties: view_seq(self.properties@),
            gamemode: self.gamemode,
            ping: self.ping,
            display_name: view_opt(self.display_name),
        }
    }
}

impl WireFormat for AddPlayer {
    /// Identifier, name, properties, game mode and ping as varints, optional
    /// display override.
    open spec fn spec_parse(s: Seq<u8>, pos: int, lim: DecodeLimits) -> Result<(AddPlayerView, int), DecodeError> {
        match PlayerIdentity::spec_parse(s, pos, lim) {
            Err(e) => Err(e),
            Ok((uuid, p1)) => match parse_text(s, p1, lim) {
                Err(e) => Err(e),
                Ok((name, p2)) => match parse_sequence::<PlayerProperty>(s, p2, lim) {
                    Err(e) => Err(e),
                    Ok((properties, p3)) => match parse_varint(s, p3) {
                        Err(e) => Err(e),
                        Ok((gamemode, p4)) => match parse_varint_signed(s, p4) {
                            Err(e) => Err(e),
                            Ok((ping, p5)) => match parse_optional::<RichText>(s, p5, lim) {
                                Err(e) => Err(e),
                                Ok((display_name, p6)) => Ok(
                                    (
                                        AddPlayerView {
                                            uuid,
                                            name,
                                            properties,
                                            gamemode,
                                            ping,
                                            display_name,
                                        },
                                        p6,
                                    ),
                                ),
                            },
                        },
                    },
                },
            },
        }
    }

    open spec fn spec_encode(v: AddPlayerView) -> Seq<u8> {
        v.uuid + (encode_text(v.name) + (encode_sequence::<PlayerProperty>(v.properties) + (
        varint_bytes(v.gamemode as nat) + (varint_bytes_signed(v.ping) + encode_optional::<
            RichText,
        >(v.display_name)))))
    }

    open spec fn spec_fits(v: AddPlayerView, lim: DecodeLimits) -> bool {
        &&& v.uuid.len() == 16
        &&& <String as WireFormat>::spec_fits(v.name, lim)
        &&& fits_sequence::<PlayerProperty>(v.properties, lim)
        &&& fits_optional::<RichText>(v.display_name, lim)
    }

    fn read_into(buf: &[u8], pos: usize, lim: DecodeLimits) -> (r: Result<(AddPlayer, usize), DecodeError>) {
        let (uuid, p1) = match PlayerIdentity::read_into(buf, pos, lim) {
            Ok(x) => x,
            Err(e) => return Err(e),
        };
        let (name, p2) = match String::read_into(buf, p1, lim) {
            Ok(x) => x,
            Err(e) => return Err(e),
        };
        let (properties, p3) = match read_sequence::<PlayerProperty>(buf, p2, lim) {
            Ok(x) => x,
            Err(e) => return Err(e),
        };
        let (gamemode, p4) = match read_varint(buf, p3) {
            Ok(x) => x,
            Err(e) => return Err(e),
        };
        let (ping, p5) = match read_varint_signed(buf, p4) {
            Ok(x) => x,
            Err(e) => return Err(e),
        };
        let (display_name, p6) = match read_optional::<RichText>(buf, p5, lim) {
            Ok(x) => x,
            Err(e) => return Err(e),
        };
        Ok((AddPlayer { uuid, name, properties, gamemode, ping, display_name }, p6))
    }

    fn write_into(&self, out: &mut Vec<u8>) {
        self.uuid.write_into(out);
        self.name.write_into(out);
        write_sequence(out, &self.properties);
        write_varint(out, self.gamemode);
        write_varint_signed(out, self.ping);
        write_optional(out, &self.display_name);
        assert(final(out)@ =~= old(out)@ + Self::spec_encode(self@));
    }

    proof fn lemma_round_trip(v: AddPlayerView, s: Seq<u8>, pos: int, lim: DecodeLimits) {
        let a = v.uuid;
        let b = encode_text(v.name);
        let c = encode_sequence::<PlayerProperty>(v.properties);
        let d = varint_bytes(v.gamemode as nat);
        let e = varint_bytes_signed(v.ping);
        let f = encode_optional::<RichText>(v.display_name);
        let p1 = pos + a.len();
        let p2 = p1 + b.len();
        let p3 = p2 + c.len();
        let p4 = p3 + d.len();
        let p5 = p4 + e.len();
        lemma_split(s, pos, a, b + (c + (d + (e + f))));
        lemma_split(s, p1, b, c + (d + (e + f)));
        lemma_split(s, p2, c, d + (e + f));
        lemma_split(s, p3, d, e + f);
        lemma_split(s, p4, e, f);
        <String as WireFormat>::lemma_round_trip(v.name, s, p1, lim);
        lemma_sequence_round_trip::<PlayerProperty>(v.properties, s, p2, lim);
        lemma_varint_round_trip(v.gamemode, s, p3);
        lemma_varint_signed_round_trip(v.ping, s, p4);
        lemma_optional_round_trip::<RichText>(v.display_name, s, p5, lim);
    }
}

/// The model of an [`UpdateGameMode`] record.
pub struct GameModeView {
    pub uuid: Seq<u8>,
    pub gamemode: u32,
}

/// A player's new game mode.
#[derive(Clone, Debug, PartialEq, Eq)]
pub struct UpdateGameMode {
    pub uuid: PlayerIdentity,
    pub gamemode: u32,
}

impl View for UpdateGameMode {
    type V = GameModeView;

    open spec fn view(&self) -> GameModeView {
        GameModeView { uuid: self.uuid@, gamemode: self.gamemode }
    }
}

impl WireFormat for UpdateGameMode {
    /// Identifier, game mode as a varint.
    open spec fn spec_parse(s: Seq<u8>, pos: int, lim: DecodeLimits) -> Result<(GameModeView, int), DecodeError> {
        match PlayerIdentity::spec_parse(s, pos, lim) {
            Err(e) => Err(e),
            Ok((uuid, p1)) => match parse_varint(s, p1) {
                Err(e) => Err(e),
                Ok((gamemode, p2)) => Ok((GameModeView { uuid, gamemode }, p2)),
            },
        }
    }

    open spec fn spec_encode(v: GameModeView) -> Seq<u8> {
        v.uuid + varint_bytes(v.gamemode as nat)
    }

    open spec fn spec_fits(v: GameModeView, lim: DecodeLimits) -> bool {
        v.uuid.len() == 16
    }

    fn read_into(buf: &[u8], pos: usize, lim: DecodeLimits) -> (r: Result<(UpdateGameMode, usize), DecodeError>) {
        let (uuid, p1) = match PlayerIdentity::read_into(buf, pos, lim) {
            Ok(x) => x,
            Err(e) => return Err(e),
        };
        let (gamemode, p2) = match read_varint(buf, p1) {
            Ok(x) => x,
            Err(e) => return Err(e),
        };
        Ok((UpdateGameMode { uuid, gamemode }, p2))
    }

    fn write_into(&self, out: &mut Vec<u8>) {
        self.uuid.write_into(out);
        write_varint(out, self.gamemode);
        assert(final(out)@ =~= old(out)@ + Self::spec_encode(self@));
    }

    proof fn lemma_round_trip(v: GameModeView, s: Seq<u8>, pos: int, lim: DecodeLimits) {
        lemma_split(s, pos, v.uuid, varint_bytes(v.gamemode as nat));
        lemma_varint_round_trip(v.gamemode, s, pos + 16);
    }
}

/// The model of an [`UpdateLatency`] record.
pub struct LatencyView {
    pub uuid: Seq<u8>,
    pub ping: i32,
}

/// A player's new latency.
#[derive(Clone, Debug, PartialEq, Eq)]
pub struct UpdateLatency {
    pub uuid: PlayerIdentity,
    pub ping: i32,
}

impl View for UpdateLatency {
    type V = LatencyView;

    open spec fn view(&self) -> LatencyView {
        LatencyView { uuid: self.uuid@, ping: self.ping }
    }
}

impl WireFormat for UpdateLatency {
    /// Identifier, ping as a signed varint.
    open spec fn spec_parse(s: Seq<u8>, pos: int, lim: DecodeLimits) -> Result<(LatencyView, int), DecodeError> {
        match PlayerIdentity::spec_parse(s, pos, lim) {
            Err(e) => Err(e),
            Ok((uuid, p1)) => match parse_varint_signed(s, p1) {
                Err(e) => Err(e),
                Ok((ping, p2)) => Ok((LatencyView { uuid, ping }, p2)),
            },
        }
    }

    open spec fn spec_encode(v: LatencyView) -> Seq<u8> {
        v.uuid + varint_bytes_signed(v.ping)
    }

    open spec fn spec_fits(v: LatencyView, lim: DecodeLimits) -> bool {
        v.uuid.len() == 16
    }

    fn read_into(buf: &[u8], pos: usize, lim: DecodeLimits) -> (r: Result<(UpdateLatency, usize), DecodeError>) {
        let (uuid, p1) = match PlayerIdentity::read_into(buf, pos, lim) {
            Ok(x) => x,
            Err(e) => return Err(e),
        };
        let (ping, p2) = match read_varint_signed(buf, p1) {
            Ok(x) => x,
            Err(e) => return Err(e),
        };
        Ok((UpdateLatency { uuid, ping }, p2))
    }

    fn write_into(&self, out: &mut Vec<u8>) {
        self.uuid.write_into(out);
        write_varint_signed(out, self.ping);
        assert(final(out)@ =~= old(out)@ + Self::spec_encode(self@));
    }

    proof fn lemma_round_trip(v: LatencyView, s: Seq<u8>, pos: int, lim: DecodeLimits) {
        lemma_split(s, pos, v.uuid, varint_bytes_signed(v.ping));
        lemma_varint_signed_round_trip(v.ping, s, pos + 16);
    }
}

/// The model of an [`UpdateDisplayName`] record.
pub struct DisplayNameView {
    pub uuid: Seq<u8>,
    pub display_name: Option<Seq<char>>,
}

/// A player's new display override, or its removal.
#[derive(Clone, Debug, PartialEq, Eq)]
pub struct UpdateDisplayName {
    pub uuid: PlayerIdentity,
    pub display_name: Option<RichText>,
}

impl View for UpdateDisplayName {
    type V = DisplayNameView;

    open spec fn view(&self) -> DisplayNameView {
        DisplayNameView { uuid: self.uuid@, display_name: view_opt(self.display_name) }
    }
}

impl WireFormat for UpdateDisplayName {
    /// Identifier, optional display override.
    open spec fn spec_parse(s: Seq<u8>, pos: int, lim: DecodeLimits) -> Result<(DisplayNameView, int), DecodeError> {
        match PlayerIdentity::spec_parse(s, pos, lim) {
            Err(e) => Err(e),
            Ok((uuid, p1)) => match parse_optional::<RichText>(s, p1, lim) {
                Err(e) => Err(e),
                Ok((display_name, p2)) => Ok((DisplayNameView { uuid, display_name }, p2)),
            },
        }
    }

    open spec fn spec_encode(v: DisplayNameView) -> Seq<u8> {
        v.uuid + encode_optional::<RichText>(v.display_name)
    }

    open spec fn spec_fits(v: DisplayNameView, lim: DecodeLimits) -> bool {
        &&& v.uuid.len() == 16
        &&& fits_optional::<RichText>(v.display_name, lim)
    }

    fn read_into(buf: &[u8], pos: usize, lim: DecodeLimits) -> (r: Result<(UpdateDisplayName, usize), DecodeError>) {
        let (uuid, p1) = match PlayerIdentity::read_into(buf, pos, lim) {
            Ok(x) => x,
            Err(e) => return Err(e),
        };
        let (display_name, p2) = match read_optional::<RichText>(buf, p1, lim) {
            Ok(x) => x,
            Err(e) => return Err(e),
        };
        Ok((UpdateDisplayName { uuid, display_name }, p2))
    }

    fn write_into(&self, out: &mut Vec<u8>) {
        self.uuid.write_into(out);
        write_optional(out, &self.display_name);
        assert(final(out)@ =~= old(out)@ + Self::spec_encode(self@));
    }

    proof fn lemma_round_trip(v: DisplayNameView, s: Seq<u8>, pos: int, lim: DecodeLimits) {
        lemma_split(s, pos, v.uuid, encode_optional::<RichText>(v.display_name));
        lemma_optional_round_trip::<RichText>(v.display_name, s, pos + 16, lim);
    }
}

/// A player leaving the roster.
#[derive(Clone, Debug, PartialEq, Eq)]
pub struct RemovePlayer {
    pub uuid: PlayerIdentity,
}

impl View for RemovePlayer {
    type V = Seq<u8>;

    open spec fn view(&self) -> Seq<u8> {
        self.uuid@
    }
}

impl WireFormat for RemovePlayer {
    /// Identifier alone.
    open spec fn spec_parse(s: Seq<u8>, pos: int, lim: DecodeLimits) -> Result<(Seq<u8>, int), DecodeError> {
        PlayerIdentity::spec_parse(s, pos, lim)
    }

    open spec fn spec_encode(v: Seq<u8>) -> Seq<u8> {
        v
    }

    open spec fn spec_fits(v: Seq<u8>, lim: DecodeLimits) -> bool {
        v.len() == 16
    }

    fn read_into(buf: &[u8], pos: usize, lim: DecodeLimits) -> (r: Result<(RemovePlayer, usize), DecodeError>) {
        match PlayerIdentity::read_into(buf, pos, lim) {
            Ok((uuid, p)) => Ok((RemovePlayer { uuid }, p)),
            Err(e) => Err(e),
        }
    }

    fn write_into(&self, out: &mut Vec<u8>) {
        self.uuid.write_into(out);
    }

    proof fn lemma_round_trip(v: Seq<u8>, s: Seq<u8>, pos: int, lim: DecodeLimits) {
    }
}

} // verus!
