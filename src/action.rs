use crate::combinators::{
    encode_sequence, fits_sequence, lemma_sequence_round_trip, parse_sequence, read_sequence,
    view_seq, write_sequence,
};
use crate::error::{agrees, failure, DecodeError, DecodeLimits, ErrorKind};
use crate::records::{
    AddPlayer, AddPlayerView, DisplayNameView, GameModeView, LatencyView, RemovePlayer,
    UpdateDisplayName, UpdateGameMode, UpdateLatency,
};
use crate::varint::{parse_varint, parse_varint_from};
use crate::records::PlayerIdentity;
use crate::wire::{lemma_split, parse_text, WireFormat};
use vstd::prelude::*;

verus! {

/// The model of an [`Action`]: the variant and the models of its records.
pub enum ActionView {
    AddPlayer(Seq<AddPlayerView>),
    UpdateGameMode(Seq<GameModeView>),
    UpdateLatency(Seq<LatencyView>),
    UpdateDisplayName(Seq<DisplayNameView>),
    RemovePlayer(Seq<Seq<u8>>),
}

/// One roster change applied to a run of players.
#[derive(Clone, Debug, PartialEq, Eq)]
pub enum Action {
    AddPlayer(Vec<AddPlayer>),
    UpdateGameMode(Vec<UpdateGameMode>),
    UpdateLatency(Vec<UpdateLatency>),
    UpdateDisplayName(Vec<UpdateDisplayName>),
    RemovePlayer(Vec<RemovePlayer>),
}

impl View for Action {
    type V = ActionView;

    open spec fn view(&self) -> ActionView {
        match self {
            Action::AddPlayer(v) => ActionView::AddPlayer(view_seq(v@)),
            Action::UpdateGameMode(v) => ActionView::UpdateGameMode(view_seq(v@)),
            Action::UpdateLatency(v) => ActionView::UpdateLatency(view_seq(v@)),
            Action::UpdateDisplayName(v) => ActionView::UpdateDisplayName(view_seq(v@)),
            Action::RemovePlayer(v) => ActionView::RemovePlayer(view_seq(v@)),
        }
    }
}

/// The tag byte of each variant. The numbering is fixed here, variant by
/// variant, and does not follow the order of declaration.
pub open spec fn action_tag(a: ActionView) -> u8 {
    match a {
        ActionView::AddPlayer(_) => 0,
        ActionView::UpdateGameMode(_) => 1,
        ActionView::UpdateLatency(_) => 2,
        ActionView::UpdateDisplayName(_) => 3,
        ActionView::RemovePlayer(_) => 4,
    }
}

/// How many records the action carries.
pub open spec fn action_len(a: ActionView) -> nat {
    match a {
        ActionView::AddPlayer(v) => v.len(),
        ActionView::UpdateGameMode(v) => v.len(),
        ActionView::UpdateLatency(v) => v.len(),
        ActionView::UpdateDisplayName(v) => v.len(),
        ActionView::RemovePlayer(v) => v.len(),
    }
}

/// An action on the wire: its tag byte, then the sequence of its records.
pub open spec fn encode_action(a: ActionView) -> Seq<u8> {
    seq![action_tag(a)] + match a {
        ActionView::AddPlayer(v) => encode_sequence::<AddPlayer>(v),
        ActionView::UpdateGameMode(v) => encode_sequence::<UpdateGameMode>(v),
        ActionView::UpdateLatency(v) => encode_sequence::<UpdateLatency>(v),
        ActionView::UpdateDisplayName(v) => encode_sequence::<UpdateDisplayName>(v),
        ActionView::RemovePlayer(v) => encode_sequence::<RemovePlayer>(v),
    }
}

/// The action at `pos`: the tag selects the record shape of the sequence
/// that follows; a tag of 5 or more is refused without reading further.
pub open spec fn parse_action(s: Seq<u8>, pos: int, lim: DecodeLimits) -> Result<(ActionView, int), DecodeError> {
    if pos < 0 || pos >= s.len() {
        Err(failure(ErrorKind::UnexpectedEndOfInput, pos))
    } else {
        let tag = s[pos];
        if tag == 0 {
            match parse_sequence::<AddPlayer>(s, pos + 1, lim) {
                Ok((v, p)) => Ok((ActionView::AddPlayer(v), p)),
                Err(e) => Err(e),
            }
        } else if tag == 1 {
            match parse_sequence::<UpdateGameMode>(s, pos + 1, lim) {
                Ok((v, p)) => Ok((ActionView::UpdateGameMode(v), p)),
                Err(e) => Err(e),
            }
        } else if tag == 2 {
            match parse_sequence::<UpdateLatency>(s, pos + 1, lim) {
                Ok((v, p)) => Ok((ActionView::UpdateLatency(v), p)),
                Err(e) => Err(e),
            }
        } else if tag == 3 {
            match parse_sequence::<UpdateDisplayName>(s, pos + 1, lim) {
                Ok((v, p)) => Ok((ActionView::UpdateDisplayName(v), p)),
                Err(e) => Err(e),
            }
        } else if tag == 4 {
            match parse_sequence::<RemovePlayer>(s, pos + 1, lim) {
                Ok((v, p)) => Ok((ActionView::RemovePlayer(v), p)),
                Err(e) => Err(e),
            }
        } else {
            Err(failure(ErrorKind::UnknownVariant(tag), pos))
        }
    }
}

/// The sequence of the action and all of its records fit the limits.
pub open spec fn fits_action(a: ActionView, lim: DecodeLimits) -> bool {
    match a {
        ActionView::AddPlayer(v) => fits_sequence::<AddPlayer>(v, lim),
        ActionView::UpdateGameMode(v) => fits_sequence::<UpdateGameMode>(v, lim),
        ActionView::UpdateLatency(v) => fits_sequence::<UpdateLatency>(v, lim),
        ActionView::UpdateDisplayName(v) => fits_sequence::<UpdateDisplayName>(v, lim),
        ActionView::RemovePlayer(v) => fits_sequence::<RemovePlayer>(v, lim),
    }
}

impl Action {
    /// The tag byte of this action's variant.
    pub fn tag(&self) -> (r: u8)
        ensures
            r == action_tag(self@),
    {
        match self {
            Action::AddPlayer(_) => 0,
            Action::UpdateGameMode(_) => 1,
            Action::UpdateLatency(_) => 2,
            Action::UpdateDisplayName(_) => 3,
            Action::RemovePlayer(_) => 4,
        }
    }
}

impl WireFormat for Action {
    open spec fn spec_parse(s: Seq<u8>, pos: int, lim: DecodeLimits) -> Result<(ActionView, int), DecodeError> {
        parse_action(s, pos, lim)
    }

    open spec fn spec_encode(v: ActionView) -> Seq<u8> {
        encode_action(v)
    }

    open spec fn spec_fits(v: ActionView, lim: DecodeLimits) -> bool {
        fits_action(v, lim)
    }

    fn read_into(buf: &[u8], pos: usize, lim: DecodeLimits) -> (r: Result<(Action, usize), DecodeError>) {
        if pos >= buf.len() {
            return Err(DecodeError::new(ErrorKind::UnexpectedEndOfInput, pos));
        }
        let tag = buf[pos];
        if tag == 0 {
            match read_sequence::<AddPlayer>(buf, pos + 1, lim) {
                Ok((v, p)) => Ok((Action::AddPlayer(v), p)),
                Err(e) => Err(e),
            }
        } else if tag == 1 {
            match read_sequence::<UpdateGameMode>(buf, pos + 1, lim) {
                Ok((v, p)) => Ok((Action::UpdateGameMode(v), p)),
                Err(e) => Err(e),
            }
        } else if tag == 2 {
            match read_sequence::<UpdateLatency>(buf, pos + 1, lim) {
                Ok((v, p)) => Ok((Action::UpdateLatency(v), p)),
                Err(e) => Err(e),
            }
        } else if tag == 3 {
            match read_sequence::<UpdateDisplayName>(buf, pos + 1, lim) {
                Ok((v, p)) => Ok((Action::UpdateDisplayName(v), p)),
                Err(e) => Err(e),
            }
        } else if tag == 4 {
            match read_sequence::<RemovePlayer>(buf, pos + 1, lim) {
                Ok((v, p)) => Ok((Action::RemovePlayer(v), p)),
                Err(e) => Err(e),
            }
        } else {
            Err(DecodeError::new(ErrorKind::UnknownVariant(tag), pos))
        }
    }

    fn write_into(&self, out: &mut Vec<u8>) {
        out.push(self.tag());
        match self {
            Action::AddPlayer(v) => write_sequence(out, v),
            Action::UpdateGameMode(v) => write_sequence(out, v),
            Action::UpdateLatency(v) => write_sequence(out, v),
            Action::UpdateDisplayName(v) => write_sequence(out, v),
            Action::RemovePlayer(v) => write_sequence(out, v),
        }
        assert(final(out)@ =~= old(out)@ + encode_action(self@));
    }

    proof fn lemma_round_trip(v: ActionView, s: Seq<u8>, pos: int, lim: DecodeLimits) {
        assert(s[pos] == s.subrange(pos, pos + encode_action(v).len())[0]);
        match v {
            ActionView::AddPlayer(r) => {
                lemma_split(s, pos, seq![0u8], encode_sequence::<AddPlayer>(r));
                lemma_sequence_round_trip::<AddPlayer>(r, s, pos + 1, lim);
            },
            ActionView::UpdateGameMode(r) => {
                lemma_split(s, pos, seq![1u8], encode_sequence::<UpdateGameMode>(r));
                lemma_sequence_round_trip::<UpdateGameMode>(r, s, pos + 1, lim);
            },
            ActionView::UpdateLatency(r) => {
                lemma_split(s, pos, seq![2u8], encode_sequence::<UpdateLatency>(r));
                lemma_sequence_round_trip::<UpdateLatency>(r, s, pos + 1, lim);
            },
            ActionView::UpdateDisplayName(r) => {
                lemma_split(s, pos, seq![3u8], encode_sequence::<UpdateDisplayName>(r));
                lemma_sequence_round_trip::<UpdateDisplayName>(r, s, pos + 1, lim);
            },
            ActionView::RemovePlayer(r) => {
                lemma_split(s, pos, seq![4u8], encode_sequence::<RemovePlayer>(r));
                lemma_sequence_round_trip::<RemovePlayer>(r, s, pos + 1, lim);
            },
        }
    }
}

/// The roster update packet: exactly one action.
#[derive(Clone, Debug, PartialEq, Eq)]
pub struct ClientboundPlayerInfoPacket {
    pub action: Action,
}

impl View for ClientboundPlayerInfoPacket {
    type V = ActionView;

    open spec fn view(&self) -> ActionView {
        self.action@
    }
}

impl ClientboundPlayerInfoPacket {
    /// Decodes one packet from the start of `buf`, with the number of bytes
    /// it took. Nothing is returned but a whole packet or an error.
    pub fn decode(buf: &[u8], lim: DecodeLimits) -> (r: Result<(ClientboundPlayerInfoPacket, usize), DecodeError>)
        ensures
            agrees(r, parse_action(buf@, 0, lim)),
    {
        match Action::read_into(buf, 0, lim) {
            Ok((action, p)) => Ok((ClientboundPlayerInfoPacket { action }, p)),
            Err(e) => Err(e),
        }
    }

    /// The bytes of this packet.
    pub fn encode(&self) -> (r: Vec<u8>)
        requires
            fits_action(self@, DecodeLimits::spec_widest()),
        ensures
            r@ == encode_action(self@),
    {
        let mut out: Vec<u8> = Vec::new();
        self.action.write_into(&mut out);
        assert(out@ =~= encode_action(self@));
        out
    }
}

/// Decoding the encoding of any action, whatever bytes follow it, gives the
/// same action back (the same variant, the same records in the same order)
/// and consumes exactly its bytes, provided its lengths are within the
/// decoder's limits.
pub proof fn lemma_action_round_trip(a: ActionView, rest: Seq<u8>, lim: DecodeLimits)
    requires
        fits_action(a, lim),
    ensures
        parse_action(encode_action(a) + rest, 0, lim) == Ok::<_, DecodeError>(
            (a, encode_action(a).len() as int),
        ),
{
    let s = encode_action(a) + rest;
    assert(s.subrange(0, encode_action(a).len() as int) =~= encode_action(a));
    Action::lemma_round_trip(a, s, 0, lim);
}

/// A tag from 0 to 4 decides the variant: whatever follows it, a successful
/// decode yields the variant of that tag, and a tag followed by a zero count
/// decodes to that variant with no records.
pub proof fn lemma_tag_fidelity(s: Seq<u8>, lim: DecodeLimits)
    requires
        s.len() >= 1,
        s[0] < 5,
    ensures
        parse_action(s, 0, lim) matches Ok((a, _)) ==> action_tag(a) == s[0],
        parse_action(seq![s[0], 0u8], 0, lim) matches Ok((a, p)) && action_tag(a) == s[0]
            && action_len(a) == 0 && p == 2,
{
    let t = seq![s[0], 0u8];
    reveal_with_fuel(parse_varint_from, 2);
    assert(parse_varint_from(t, 1, 0, 0) == Ok::<(u32, int), DecodeError>((0u32, 2)));
}

/// A tag of 5 or more is refused as unknown, carrying the tag, and the
/// outcome depends on that first byte alone.
pub proof fn lemma_unknown_tag(s: Seq<u8>, lim: DecodeLimits)
    requires
        s.len() >= 1,
        s[0] >= 5,
    ensures
        parse_action(s, 0, lim) == Err::<(ActionView, int), _>(failure(ErrorKind::UnknownVariant(s[0]), 0)),
        parse_action(s, 0, lim) == parse_action(seq![s[0]], 0, lim),
{
}

/// A declared length or count larger than the bytes left after it is a
/// truncation, whatever the limits: for a string, for a sequence of any
/// record, and likewise for an identifier with fewer than 16 bytes left.
pub proof fn lemma_declared_length_past_end<T: WireFormat>(s: Seq<u8>, pos: int, lim: DecodeLimits)
    requires
        parse_varint(s, pos) matches Ok((n, p)) && n > s.len() - p,
    ensures
        parse_text(s, pos, lim) == Err::<(Seq<char>, int), _>(failure(ErrorKind::UnexpectedEndOfInput, pos)),
        parse_sequence::<T>(s, pos, lim) == Err::<(Seq<T::V>, int), _>(
            failure(ErrorKind::UnexpectedEndOfInput, pos),
        ),
        s.len() - pos < 16 ==> PlayerIdentity::spec_parse(s, pos, lim) == Err::<(Seq<u8>, int), _>(
            failure(ErrorKind::UnexpectedEndOfInput, pos),
        ),
{
}

} // verus!
