//! Types shared with the Fotolife photo-upload client built on top of the
//! OAuth layer.  The upload transport itself lives in the embedding
//! application; only its plain data types are kept here.

pub mod fotolife;
