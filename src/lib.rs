//! Discovery, normalisation and merging of paired subtitle tracks.

pub mod codec;
pub mod discovery;
pub mod matcher;
pub mod naming;
pub mod substation;
pub mod position;
pub mod text;
pub mod timing;
pub mod track;

pub use codec::{load_sub, to_srt_text, ClockTime, RawCue, SubError};
pub use discovery::{
    find_matching_subtitle_files, match_directory, resolve_pairs, DirGroup, DirListing, SubFile,
    SubPair,
};
pub use matcher::{get_sub_path_regex, match_sub_file_name, SubMatch};
pub use naming::{base_file_stem, file_extension, output_file_name};
pub use position::SubPosition;
pub use timing::{TimeFields, Timestamp};
pub use track::{apply_sub_changes, merge, offset_fits, Cue, Track};
