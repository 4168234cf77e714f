//! Verified presentation logic of the HUD compositor: the runtime-authored
//! viewer echo store, composer echo text, re-prime cadence and ordering rules.

pub mod alert_banner;
pub mod canonical;
pub mod composer;
pub mod echo_text;
pub mod hit_order;
pub mod icon_cache;
pub mod identity;
pub mod images;
pub mod layout_lines;
pub mod reprime;
pub mod retained;
pub mod reveal_fade;
pub mod scene_id;
pub mod subtree;
pub mod text_util;
pub mod tile_order;
pub mod token_colors;
pub mod viewer_echo;
pub mod zone_text;
