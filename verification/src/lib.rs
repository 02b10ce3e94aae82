//! Reading and writing NBT (Named Binary Tag) data, the binary format that Minecraft uses to
//! store worlds, players and level settings.
//!
//! The binary layout of every tag and payload is given by the spec functions of
//! [`binary::format`]; the writers in [`binary::serialize`] and the parsers in
//! [`binary::deserialize`] are proved to follow it.

pub mod binary;
pub mod gzip;

mod tag;
pub use tag::{
    first_repeat, law_consistent_list_checks_every_item, law_new_checks_every_list_item,
    law_type_ids_follow_nbt, lemma_type_id_injective, lemma_type_id_roundtrip, new_result, payload_model,
    payloads_model, repeats_earlier, tag_model, tags_model, PayloadModel, Tag, TagModel, TagPayload, TagPayloadType,
};

mod error;
pub mod equality;
pub use error::NBTError;
