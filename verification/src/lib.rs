//! Term frequency in many programming styles: each style reads a text and a list of stop
//! words and reports the most frequent words. The counting, merging, sorting and reporting
//! they share, and each style's own steps, come with contracts proved by Verus.
pub mod text;
pub mod normalize;
pub mod freq;
pub mod order;
pub mod report;
pub mod words;
pub mod tf;
pub mod things;
pub mod abstract_things;
pub mod letterbox;
pub mod actors;
pub mod aspects;
pub mod constructivist;
pub mod golf;
pub mod closed_maps;
pub mod kick_forward;
pub mod pipe;
pub mod quarantine;
pub mod trinity;
pub mod mirror;
pub mod lazy_rivers;
pub mod the_one;
pub mod map_reduce;
pub mod double_map_reduce;
pub mod dataspaces;
pub mod hollywood;
pub mod bulletin_board;
pub mod lazy_rivers_mp;
pub mod persistent_tables;
pub mod menu;
