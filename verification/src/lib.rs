//! Verified core of a desktop audio client: the growing byte buffer that a
//! download fills while playback reads it, the on-disk track cache rules,
//! Ogg/Opus stream set-up, playback state decisions and the transcoding
//! command line of the storage service.

pub mod streaming;
pub mod track_cache;
pub mod cache_dir;
pub mod downloads;
pub mod opus;
pub mod playback;
pub mod transcode;
