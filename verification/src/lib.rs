//! Verified core of a peer-to-peer listening-room application: the wire
//! format of audio and control frames, room codes and the keys derived from
//! them, the state shown for a room, and the text clean-up used to find
//! artwork for the track that is playing.

pub mod protocol;
pub mod text;
pub mod metadata;
pub mod artwork;
pub mod cache;
pub mod now_playing;
pub mod identity;
pub mod room;
pub mod audio;
