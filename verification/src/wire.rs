//! The literal byte strings of the wire format, each as a specification
//! function paired with an executable producer proved to return it.

use vstd::prelude::*;

verus! {

/// The line terminator `"\r\n"`.
pub open spec fn crlf() -> Seq<u8> {
    seq![13u8, 10u8]
}

/// The blank-line separator `"\r\n\r\n"` that ends a header section.
pub open spec fn double_crlf() -> Seq<u8> {
    crlf() + crlf()
}

/// The `": "` separator between a header name and its value.
pub open spec fn colon_sp() -> Seq<u8> {
    seq![58u8, 32u8]
}

/// The protocol literal `"HTTP/1.1"`.
pub open spec fn http_protocol() -> Seq<u8> {
    seq![
        'H' as u8,
        'T' as u8,
        'T' as u8,
        'P' as u8,
        '/' as u8,
        '1' as u8,
        '.' as u8,
        '1' as u8,
    ]
}

/// The method token `"GET"`.
pub open spec fn get_token() -> Seq<u8> {
    seq!['G' as u8, 'E' as u8, 'T' as u8]
}

/// The method token `"POST"`.
pub open spec fn post_token() -> Seq<u8> {
    seq!['P' as u8, 'O' as u8, 'S' as u8, 'T' as u8]
}

/// The header name `"Content-Length"` as it appears on the wire.
pub open spec fn content_length_name() -> Seq<u8> {
    seq![
        'C' as u8,
        'o' as u8,
        'n' as u8,
        't' as u8,
        'e' as u8,
        'n' as u8,
        't' as u8,
        '-' as u8,
        'L' as u8,
        'e' as u8,
        'n' as u8,
        'g' as u8,
        't' as u8,
        'h' as u8,
    ]
}

/// The header name `"Content-Type"`.
pub open spec fn content_type_name() -> Seq<u8> {
    seq![
        'C' as u8,
        'o' as u8,
        'n' as u8,
        't' as u8,
        'e' as u8,
        'n' as u8,
        't' as u8,
        '-' as u8,
        'T' as u8,
        'y' as u8,
        'p' as u8,
        'e' as u8,
    ]
}

/// The header name `"Content-Encoding"`.
pub open spec fn content_encoding_name() -> Seq<u8> {
    seq![
        'C' as u8,
        'o' as u8,
        'n' as u8,
        't' as u8,
        'e' as u8,
        'n' as u8,
        't' as u8,
        '-' as u8,
        'E' as u8,
        'n' as u8,
        'c' as u8,
        'o' as u8,
        'd' as u8,
        'i' as u8,
        'n' as u8,
        'g' as u8,
    ]
}

/// The lookup key `"accept-encoding"`.
pub open spec fn accept_encoding_key() -> Seq<u8> {
    seq![
        'a' as u8,
        'c' as u8,
        'c' as u8,
        'e' as u8,
        'p' as u8,
        't' as u8,
        '-' as u8,
        'e' as u8,
        'n' as u8,
        'c' as u8,
        'o' as u8,
        'd' as u8,
        'i' as u8,
        'n' as u8,
        'g' as u8,
    ]
}

/// The path segment and lookup key `"user-agent"`.
pub open spec fn user_agent_token() -> Seq<u8> {
    seq![
        'u' as u8,
        's' as u8,
        'e' as u8,
        'r' as u8,
        '-' as u8,
        'a' as u8,
        'g' as u8,
        'e' as u8,
        'n' as u8,
        't' as u8,
    ]
}

/// The path segment `"echo"`.
pub open spec fn echo_token() -> Seq<u8> {
    seq!['e' as u8, 'c' as u8, 'h' as u8, 'o' as u8]
}

/// The path segment `"files"`.
pub open spec fn files_token() -> Seq<u8> {
    seq!['f' as u8, 'i' as u8, 'l' as u8, 'e' as u8, 's' as u8]
}

/// The encoding name `"gzip"`.
pub open spec fn gzip_token() -> Seq<u8> {
    seq!['g' as u8, 'z' as u8, 'i' as u8, 'p' as u8]
}

/// Executable `"\r\n"`.
pub fn crlf_bytes() -> (r: Vec<u8>)
    ensures
        r@ == crlf(),
{
    let v: Vec<u8> = vec![13u8, 10u8];
    proof {
        assert(v@ =~= crlf());
    }
    v
}

/// Executable `"\r\n\r\n"`.
pub fn double_crlf_bytes() -> (r: Vec<u8>)
    ensures
        r@ == double_crlf(),
{
    let v: Vec<u8> = vec![13u8, 10u8, 13u8, 10u8];
    proof {
        assert(v@ =~= double_crlf());
    }
    v
}

/// Executable `": "`.
pub fn colon_sp_bytes() -> (r: Vec<u8>)
    ensures
        r@ == colon_sp(),
{
    let v: Vec<u8> = vec![58u8, 32u8];
    proof {
        assert(v@ =~= colon_sp());
    }
    v
}

/// Executable `"HTTP/1.1"`.
pub fn http_protocol_bytes() -> (r: Vec<u8>)
    ensures
        r@ == http_protocol(),
{
    let v: Vec<u8> = vec![
        'H' as u8,
        'T' as u8,
        'T' as u8,
        'P' as u8,
        '/' as u8,
        '1' as u8,
        '.' as u8,
        '1' as u8,
    ];
    proof {
        assert(v@ =~= http_protocol());
    }
    v
}

/// Executable `"GET"`.
pub fn get_token_bytes() -> (r: Vec<u8>)
    ensures
        r@ == get_token(),
{
    let v: Vec<u8> = vec!['G' as u8, 'E' as u8, 'T' as u8];
    proof {
        assert(v@ =~= get_token());
    }
    v
}

/// Executable `"POST"`.
pub fn post_token_bytes() -> (r: Vec<u8>)
    ensures
        r@ == post_token(),
{
    let v: Vec<u8> = vec!['P' as u8, 'O' as u8, 'S' as u8, 'T' as u8];
    proof {
        assert(v@ =~= post_token());
    }
    v
}

/// Executable `"Content-Length"`.
pub fn content_length_name_bytes() -> (r: Vec<u8>)
    ensures
        r@ == content_length_name(),
{
    let v: Vec<u8> = vec![
        'C' as u8,
        'o' as u8,
        'n' as u8,
        't' as u8,
        'e' as u8,
        'n' as u8,
        't' as u8,
        '-' as u8,
        'L' as u8,
        'e' as u8,
        'n' as u8,
        'g' as u8,
        't' as u8,
        'h' as u8,
    ];
    proof {
        assert(v@ =~= content_length_name());
    }
    v
}

/// Executable `"Content-Type"`.
pub fn content_type_name_bytes() -> (r: Vec<u8>)
    ensures
        r@ == content_type_name(),
{
    let v: Vec<u8> = vec![
        'C' as u8,
        'o' as u8,
        'n' as u8,
        't' as u8,
        'e' as u8,
        'n' as u8,
        't' as u8,
        '-' as u8,
        'T' as u8,
        'y' as u8,
        'p' as u8,
        'e' as u8,
    ];
    proof {
        assert(v@ =~= content_type_name());
    }
    v
}

/// Executable `"Content-Encoding"`.
pub fn content_encoding_name_bytes() -> (r: Vec<u8>)
    ensures
        r@ == content_encoding_name(),
{
    let v: Vec<u8> = vec![
        'C' as u8,
        'o' as u8,
        'n' as u8,
        't' as u8,
        'e' as u8,
        'n' as u8,
        't' as u8,
        '-' as u8,
        'E' as u8,
        'n' as u8,
        'c' as u8,
        'o' as u8,
        'd' as u8,
        'i' as u8,
        'n' as u8,
        'g' as u8,
    ];
    proof {
        assert(v@ =~= content_encoding_name());
    }
    v
}

/// Executable `"accept-encoding"`.
pub fn accept_encoding_key_bytes() -> (r: Vec<u8>)
    ensures
        r@ == accept_encoding_key(),
{
    let v: Vec<u8> = vec![
        'a' as u8,
        'c' as u8,
        'c' as u8,
        'e' as u8,
        'p' as u8,
        't' as u8,
        '-' as u8,
        'e' as u8,
        'n' as u8,
        'c' as u8,
        'o' as u8,
        'd' as u8,
        'i' as u8,
        'n' as u8,
        'g' as u8,
    ];
    proof {
        assert(v@ =~= accept_encoding_key());
    }
    v
}

/// Executable `"user-agent"`.
pub fn user_agent_token_bytes() -> (r: Vec<u8>)
    ensures
        r@ == user_agent_token(),
{
    let v: Vec<u8> = vec![
        'u' as u8,
        's' as u8,
        'e' as u8,
        'r' as u8,
        '-' as u8,
        'a' as u8,
        'g' as u8,
        'e' as u8,
        'n' as u8,
        't' as u8,
    ];
    proof {
        assert(v@ =~= user_agent_token());
    }
    v
}

/// Executable `"echo"`.
pub fn echo_token_bytes() -> (r: Vec<u8>)
    ensures
        r@ == echo_token(),
{
    let v: Vec<u8> = vec!['e' as u8, 'c' as u8, 'h' as u8, 'o' as u8];
    proof {
        assert(v@ =~= echo_token());
    }
    v
}

/// Executable `"files"`.
pub fn files_token_bytes() -> (r: Vec<u8>)
    ensures
        r@ == files_token(),
{
    let v: Vec<u8> = vec!['f' as u8, 'i' as u8, 'l' as u8, 'e' as u8, 's' as u8];
    proof {
        assert(v@ =~= files_token());
    }
    v
}

/// Executable `"gzip"`.
pub fn gzip_token_bytes() -> (r: Vec<u8>)
    ensures
        r@ == gzip_token(),
{
    let v: Vec<u8> = vec!['g' as u8, 'z' as u8, 'i' as u8, 'p' as u8];
    proof {
        assert(v@ =~= gzip_token());
    }
    v
}

} // verus!
