//! The fixed OAuth parameter names, as byte strings with their
//! spec-level values.

use vstd::prelude::*;

verus! {

/// The parameter name `client_id` as bytes.
pub open spec fn k_client_id() -> Seq<u8> {
    seq![99, 108, 105, 101, 110, 116, 95, 105, 100]
}

/// The parameter name `client_secret` as bytes.
pub open spec fn k_client_secret() -> Seq<u8> {
    seq![99, 108, 105, 101, 110, 116, 95, 115, 101, 99, 114, 101, 116]
}

/// The parameter name `redirect_uri` as bytes.
pub open spec fn k_redirect_uri() -> Seq<u8> {
    seq![114, 101, 100, 105, 114, 101, 99, 116, 95, 117, 114, 105]
}

/// The parameter name `response_type` as bytes.
pub open spec fn k_response_type() -> Seq<u8> {
    seq![114, 101, 115, 112, 111, 110, 115, 101, 95, 116, 121, 112, 101]
}

/// The parameter name `scope` as bytes.
pub open spec fn k_scope() -> Seq<u8> {
    seq![115, 99, 111, 112, 101]
}

/// The parameter name `state` as bytes.
pub open spec fn k_state() -> Seq<u8> {
    seq![115, 116, 97, 116, 101]
}

/// The parameter name `code` as bytes.
pub open spec fn k_code() -> Seq<u8> {
    seq![99, 111, 100, 101]
}

/// The parameter name `grant_type` as bytes.
pub open spec fn k_grant_type() -> Seq<u8> {
    seq![103, 114, 97, 110, 116, 95, 116, 121, 112, 101]
}

/// The parameter name `authorization_code` as bytes.
pub open spec fn k_authorization_code() -> Seq<u8> {
    seq![97, 117, 116, 104, 111, 114, 105, 122, 97, 116, 105, 111, 110, 95, 99, 111, 100, 101]
}

pub fn client_id_bytes() -> (v: Vec<u8>)
    ensures
        v@ == k_client_id(),
{
    let mut v: Vec<u8> = Vec::new();
    v.push(99);  // 'c'
    v.push(108);  // 'l'
    v.push(105);  // 'i'
    v.push(101);  // 'e'
    v.push(110);  // 'n'
    v.push(116);  // 't'
    v.push(95);  // '_'
    v.push(105);  // 'i'
    v.push(100);  // 'd'
    proof {
        assert(v@ =~= k_client_id());
    }
    v
}

pub fn client_secret_bytes() -> (v: Vec<u8>)
    ensures
        v@ == k_client_secret(),
{
    let mut v: Vec<u8> = Vec::new();
    v.push(99);  // 'c'
    v.push(108);  // 'l'
    v.push(105);  // 'i'
    v.push(101);  // 'e'
    v.push(110);  // 'n'
    v.push(116);  // 't'
    v.push(95);  // '_'
    v.push(115);  // 's'
    v.push(101);  // 'e'
    v.push(99);  // 'c'
    v.push(114);  // 'r'
    v.push(101);  // 'e'
    v.push(116);  // 't'
    proof {
        assert(v@ =~= k_client_secret());
    }
    v
}

pub fn redirect_uri_bytes() -> (v: Vec<u8>)
    ensures
        v@ == k_redirect_uri(),
{
    let mut v: Vec<u8> = Vec::new();
    v.push(114);  // 'r'
    v.push(101);  // 'e'
    v.push(100);  // 'd'
    v.push(105);  // 'i'
    v.push(114);  // 'r'
    v.push(101);  // 'e'
    v.push(99);  // 'c'
    v.push(116);  // 't'
    v.push(95);  // '_'
    v.push(117);  // 'u'
    v.push(114);  // 'r'
    v.push(105);  // 'i'
    proof {
        assert(v@ =~= k_redirect_uri());
    }
    v
}

pub fn response_type_bytes() -> (v: Vec<u8>)
    ensures
        v@ == k_response_type(),
{
    let mut v: Vec<u8> = Vec::new();
    v.push(114);  // 'r'
    v.push(101);  // 'e'
    v.push(115);  // 's'
    v.push(112);  // 'p'
    v.push(111);  // 'o'
    v.push(110);  // 'n'
    v.push(115);  // 's'
    v.push(101);  // 'e'
    v.push(95);  // '_'
    v.push(116);  // 't'
    v.push(121);  // 'y'
    v.push(112);  // 'p'
    v.push(101);  // 'e'
    proof {
        assert(v@ =~= k_response_type());
    }
    v
}

pub fn scope_bytes() -> (v: Vec<u8>)
    ensures
        v@ == k_scope(),
{
    let mut v: Vec<u8> = Vec::new();
    v.push(115);  // 's'
    v.push(99);  // 'c'
    v.push(111);  // 'o'
    v.push(112);  // 'p'
    v.push(101);  // 'e'
    proof {
        assert(v@ =~= k_scope());
    }
    v
}

pub fn state_bytes() -> (v: Vec<u8>)
    ensures
        v@ == k_state(),
{
    let mut v: Vec<u8> = Vec::new();
    v.push(115);  // 's'
    v.push(116);  // 't'
    v.push(97);  // 'a'
    v.push(116);  // 't'
    v.push(101);  // 'e'
    proof {
        assert(v@ =~= k_state());
    }
    v
}

pub fn code_bytes() -> (v: Vec<u8>)
    ensures
        v@ == k_code(),
{
    let mut v: Vec<u8> = Vec::new();
    v.push(99);  // 'c'
    v.push(111);  // 'o'
    v.push(100);  // 'd'
    v.push(101);  // 'e'
    proof {
        assert(v@ =~= k_code());
    }
    v
}

pub fn grant_type_bytes() -> (v: Vec<u8>)
    ensures
        v@ == k_grant_type(),
{
    let mut v: Vec<u8> = Vec::new();
    v.push(103);  // 'g'
    v.push(114);  // 'r'
    v.push(97);  // 'a'
    v.push(110);  // 'n'
    v.push(116);  // 't'
    v.push(95);  // '_'
    v.push(116);  // 't'
    v.push(121);  // 'y'
    v.push(112);  // 'p'
    v.push(101);  // 'e'
    proof {
        assert(v@ =~= k_grant_type());
    }
    v
}

pub fn authorization_code_bytes() -> (v: Vec<u8>)
    ensures
        v@ == k_authorization_code(),
{
    let mut v: Vec<u8> = Vec::new();
    v.push(97);  // 'a'
    v.push(117);  // 'u'
    v.push(116);  // 't'
    v.push(104);  // 'h'
    v.push(111);  // 'o'
    v.push(114);  // 'r'
    v.push(105);  // 'i'
    v.push(122);  // 'z'
    v.push(97);  // 'a'
    v.push(116);  // 't'
    v.push(105);  // 'i'
    v.push(111);  // 'o'
    v.push(110);  // 'n'
    v.push(95);  // '_'
    v.push(99);  // 'c'
    v.push(111);  // 'o'
    v.push(100);  // 'd'
    v.push(101);  // 'e'
    proof {
        assert(v@ =~= k_authorization_code());
    }
    v
}

} // verus!
