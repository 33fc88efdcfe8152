//! Hupa is a tool to back up and restore files and directories of a system.
//!
//! A "hupa" is one managed backup item: a source path together with a
//! computed backup location, an identity (name and category), an autobackup
//! policy and a set of required flags that gate its operations.

mod appdir;
mod category;
mod common;
mod config;
mod daemon;
mod error;
mod fs_extra;
mod hupa;
mod jsonval;
mod metadata;
mod strutil;
mod unix;
mod vars;

pub use category::{
    group_hupas, insert_hupa_grouped, insert_pos, lemma_insert_pos, lemma_sort_sorted_identity,
    sort_hupas, sort_spec, sorted_hupas, Category, CategorySpec, IntoCategories,
};
pub use common::{first_match, matches_ident, resolve_names, resolve_spec};
pub use config::{
    conf_interval, conf_metadata_path, conf_vars_path, config_json, read_metadata_from_config,
    Config,
};
pub use daemon::{autobackup_hupas, autobackup_only, file_change_stamp, DaemonState};
pub use error::{Error, ErrorSpec};
pub use fs_extra::{
    any_stale, check_older, copy_dir, get_size, last_slash, lemma_last_slash, parent_of,
    parent_spec, replace_prefix, replace_prefix_spec, stale_entry, stale_from, stale_spec,
};
pub use hupa::{
    changed_from, clone_strings, hupa_le, lemma_hupa_le_total, lemma_hupa_le_trans,
    string_lists_eq, Hupa, HupaSpec, OperationResult,
};
pub use jsonval::{
    json_dump, json_dump_pretty, json_parse, json_text, json_text_pretty, json_view,
    json_view_arr, json_view_obj, lemma_json_view_arr, lemma_json_view_obj, obj_get, parsed_json,
    JsonSpec, JsonVal,
};
pub use metadata::{
    hupa_json, hupa_to_json, hupas_json, hupas_to_json, json_to_hupas, member_hupa, members_hupas,
    names_field, parse_hupas, read_metadata, strs_of, write_metadata,
};
pub use strutil::{
    chars_lt, find_char, find_from, is_space, is_space_exec, join_slash,
    lemma_chars_lt_total, lemma_find_char, lemma_find_char_at, lemma_join_slash_snoc, str_eq,
    str_lt, trim, trim_end_idx, trim_spec, trim_start_idx,
};
pub use unix::{can_write, needs_root_from, needs_root_spec, FileIdentity};
pub use vars::{
    bool_text, first_unmet, is_false_lit, is_true_lit, lemma_first_unmet, lemma_vars_round_trip,
    parse_line, parse_vars, remove_var_spec, set_var_spec, var_line, var_value, vars_text,
    writable_name, LineParse, Var, VarsHandler,
};
