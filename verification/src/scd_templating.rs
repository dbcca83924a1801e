//! Placeholder substitution for the generated engine scripts. The template
//! texts live on disk and are read by the shell; everything that decides
//! what lands in a script happens here.
use vstd::prelude::*;

use crate::config::{APPLICATION_IP, SERVER_NAME, SERVER_OSC_SOCKET_NAME, SERVER_IN_PORT,
    SERVER_OUT_PORT, SUPERCOLLIDER_MEMORY_BYTES, spec_application_ip, spec_server_name,
    spec_server_socket_name};
use crate::dec::{Dec, spec_dec_str};
use crate::strutil::{i32_to_string, join_rows, replace_all, spec_i64_str, spec_join, spec_replace,
    views_of};

verus! {

/// The score template with tempo, output name, rows, end marker and socket
/// name substituted.
pub open spec fn spec_nrt_script(
    template: Seq<char>,
    bpm: int,
    file_name: Seq<char>,
    end_time: int,
    rows: Seq<Seq<char>>,
) -> Seq<char> {
    let t1 = spec_replace(template, "{:bpm}"@, spec_dec_str(bpm));
    let t2 = spec_replace(t1, "{:file_name}"@, file_name);
    let t3 = spec_replace(t2, "{:score_rows}"@, spec_join(rows, ",\n"@));
    let t4 = spec_replace(t3, "{:end_time}"@, spec_dec_str(end_time));
    spec_replace(t4, "{:out_socket_name}"@, spec_server_socket_name())
}

/// The offline-render script: the template with tempo, output file name,
/// the joined score rows, the end time and the reply socket substituted.
/// Times and tempo render with the scale's five decimals.
pub fn create_nrt_script(
    template: &str,
    bpm: Dec,
    file_name: &str,
    end_time: Dec,
    message_scd_rows: &Vec<String>,
) -> (r: String)
    ensures
        r@ == spec_nrt_script(template@, bpm@, file_name@, end_time@, views_of(
            message_scd_rows@,
        )),
{
    let score_row = join_rows(message_scd_rows, ",\n");
    let bpm_s = bpm.to_string5();
    let end_s = end_time.to_string5();
    let t1 = replace_all(template, "{:bpm}", bpm_s.as_str());
    let t2 = replace_all(t1.as_str(), "{:file_name}", file_name);
    let t3 = replace_all(t2.as_str(), "{:score_rows}", score_row.as_str());
    let t4 = replace_all(t3.as_str(), "{:end_time}", end_s.as_str());
    replace_all(t4.as_str(), "{:out_socket_name}", SERVER_OSC_SOCKET_NAME)
}

/// The boot template with ports, addresses, names and memory substituted.
pub open spec fn spec_boot_script(template: Seq<char>) -> Seq<char> {
    let t1 = spec_replace(template, "{:server_out_port}"@, spec_i64_str(SERVER_OUT_PORT as int));
    let t2 = spec_replace(t1, "{:server_in_port}"@, spec_i64_str(SERVER_IN_PORT as int));
    let t3 = spec_replace(t2, "{:application_ip}"@, spec_application_ip());
    let t4 = spec_replace(t3, "{:server_name}"@, spec_server_name());
    let t5 = spec_replace(t4, "{:out_socket_name}"@, spec_server_socket_name());
    spec_replace(t5, "{:memory_bytes}"@, spec_i64_str(SUPERCOLLIDER_MEMORY_BYTES as int))
}

/// The engine boot script: the template with the agreed ports, addresses,
/// names and memory budget substituted.
pub fn create_boot_script(template: &str) -> (r: Result<String, String>)
    ensures
        r matches Ok(s) && s@ == spec_boot_script(template@),
{
    let out_port = i32_to_string(SERVER_OUT_PORT);
    let in_port = i32_to_string(SERVER_IN_PORT);
    let memory = i32_to_string(SUPERCOLLIDER_MEMORY_BYTES);
    let t1 = replace_all(template, "{:server_out_port}", out_port.as_str());
    let t2 = replace_all(t1.as_str(), "{:server_in_port}", in_port.as_str());
    let t3 = replace_all(t2.as_str(), "{:application_ip}", APPLICATION_IP);
    let t4 = replace_all(t3.as_str(), "{:server_name}", SERVER_NAME);
    let t5 = replace_all(t4.as_str(), "{:out_socket_name}", SERVER_OSC_SOCKET_NAME);
    Ok(replace_all(t5.as_str(), "{:memory_bytes}", memory.as_str()))
}

/// A synth definition wrapped as a score row that the engine receives at
/// time zero.
pub open spec fn spec_nrt_wrap(def_code: Seq<char>) -> Seq<char> {
    "[0.0, ['/d_recv', "@ + def_code + "]]"@
}

/// Wrap synth definition code in a receive-definition score row.
pub fn nrt_wrap_synthdef(def_code: &str) -> (r: String)
    ensures
        r@ == spec_nrt_wrap(def_code@),
{
    let mut out = "[0.0, ['/d_recv', ".to_owned();
    out.append(def_code);
    out.append("]]");
    out
}

} // verus!
