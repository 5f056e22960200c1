//! Tools for reversing the asset obfuscation used by a game engine:
//! key handling, the fake-header protocol, the XOR prefix transform,
//! true-header restoration, and the extension classification that
//! selects the transform for a file.

pub mod decrypter;
pub mod error;
pub mod extension;
pub mod headers;
pub mod hex;
pub mod key;
pub mod rpg_file;
pub mod shims;
pub mod strutil;

pub use decrypter::Decrypter;
pub use error::Error;
pub use extension::FileExtension;
pub use extension::FileType;
pub use extension::RPGMakerVersion;
pub use key::Key;
pub use rpg_file::RPGFile;
