//! Wire codec for the roster update message of a game protocol: a tagged
//! union of five record shapes built from varints, fixed identifiers,
//! length-prefixed strings, presence-flagged optionals and counted sequences.
//! Every reader is proved to agree with a mathematical parser over the input
//! bytes, and every writer with a mathematical encoder, and the two are proved
//! to be inverse to each other.
mod error;
mod varint;
mod wire;
mod combinators;
mod records;
mod action;

pub use action::{
    action_len, action_tag, encode_action, fits_action, lemma_action_round_trip,
    lemma_declared_length_past_end, lemma_tag_fidelity, lemma_unknown_tag, parse_action, Action,
    ActionView, ClientboundPlayerInfoPacket,
};
pub use combinators::{
    encode_optional, encode_sequence, fits_optional, fits_sequence, lemma_optional_round_trip,
    lemma_sequence_round_trip, parse_optional, parse_sequence, read_optional, read_sequence,
    view_opt, view_seq, write_optional, write_sequence,
};
pub use error::{agrees, failure, DecodeError, DecodeLimits, ErrorKind};
pub use records::{
    AddPlayer, AddPlayerView, DisplayNameView, GameModeView, LatencyView, PlayerIdentity,
    PlayerProperty, PropertyView, RemovePlayer, RichText, UpdateDisplayName, UpdateGameMode,
    UpdateLatency,
};
pub use varint::{
    lemma_varint_round_trip, lemma_varint_signed_round_trip, parse_varint, parse_varint_signed,
    read_varint, read_varint_signed, varint_bytes, varint_bytes_signed, write_varint,
    write_varint_signed,
};
pub use wire::{encode_text, parse_text, WireFormat};
