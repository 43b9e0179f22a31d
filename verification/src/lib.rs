//! What the panes and windows of the Vireo mail reader show, and what follows from what
//! is done in them.

use vstd::prelude::*;

pub mod account_form;
pub mod account_laws;
pub mod accounts;
pub mod card_laws;
pub mod clock;
pub mod color_laws;
pub mod colors;
pub mod deed_laws;
pub mod document;
pub mod escape;
pub mod frame;
pub mod frame_laws;
pub mod keys;
pub mod links;
pub mod list_laws;
pub mod markup;
pub mod message_list;
pub mod message_row;
pub mod message_view;
pub mod models;
pub mod nest_laws;
pub mod one_pass;
pub mod order_laws;
pub mod password;
pub mod preferences;
pub mod print;
pub mod print_laws;
pub mod providers;
pub mod reader_laws;
pub mod reader_style;
pub mod remote;
pub mod remote_laws;
pub mod render;
pub mod row_laws;
pub mod schemes;
pub mod script;
pub mod script_laws;
pub mod script_messages;
pub mod setting_laws;
pub mod sheets;
pub mod show_laws;
pub mod site_laws;
pub mod sorting;
pub mod stamp_laws;
pub mod stripping;
pub mod styles;
pub mod text;
pub mod threads;
pub mod wrapper_laws;
