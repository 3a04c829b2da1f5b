//! The fixed protocol constants: parameter keys and fixed values, as ASCII
//! byte strings, each carried both as a specification-level sequence and as
//! an executable vector proved equal to it.

use vstd::prelude::*;

verus! {

/// `AccessKeyId` as ASCII bytes.
pub open spec fn key_access_key_id() -> Seq<u8> {
    seq![65u8, 99u8, 99u8, 101u8, 115u8, 115u8, 75u8, 101u8, 121u8, 73u8, 100u8]
}

/// `AccessKeyId` as an ASCII byte vector.
pub fn key_access_key_id_vec() -> (r: Vec<u8>)
    ensures
        r@ == key_access_key_id(),
{
    let r: Vec<u8> = vec![65u8, 99u8, 99u8, 101u8, 115u8, 115u8, 75u8, 101u8, 121u8, 73u8, 100u8];
    proof {
        assert(r@ =~= key_access_key_id());
    }
    r
}

/// `Action` as ASCII bytes.
pub open spec fn key_action() -> Seq<u8> {
    seq![65u8, 99u8, 116u8, 105u8, 111u8, 110u8]
}

/// `Action` as an ASCII byte vector.
pub fn key_action_vec() -> (r: Vec<u8>)
    ensures
        r@ == key_action(),
{
    let r: Vec<u8> = vec![65u8, 99u8, 116u8, 105u8, 111u8, 110u8];
    proof {
        assert(r@ =~= key_action());
    }
    r
}

/// `Format` as ASCII bytes.
pub open spec fn key_format() -> Seq<u8> {
    seq![70u8, 111u8, 114u8, 109u8, 97u8, 116u8]
}

/// `Format` as an ASCII byte vector.
pub fn key_format_vec() -> (r: Vec<u8>)
    ensures
        r@ == key_format(),
{
    let r: Vec<u8> = vec![70u8, 111u8, 114u8, 109u8, 97u8, 116u8];
    proof {
        assert(r@ =~= key_format());
    }
    r
}

/// `PhoneNumbers` as ASCII bytes.
pub open spec fn key_phone_numbers() -> Seq<u8> {
    seq![80u8, 104u8, 111u8, 110u8, 101u8, 78u8, 117u8, 109u8, 98u8, 101u8, 114u8, 115u8]
}

/// `PhoneNumbers` as an ASCII byte vector.
pub fn key_phone_numbers_vec() -> (r: Vec<u8>)
    ensures
        r@ == key_phone_numbers(),
{
    let r: Vec<u8> = vec![80u8, 104u8, 111u8, 110u8, 101u8, 78u8, 117u8, 109u8, 98u8, 101u8, 114u8, 115u8];
    proof {
        assert(r@ =~= key_phone_numbers());
    }
    r
}

/// `RegionId` as ASCII bytes.
pub open spec fn key_region_id() -> Seq<u8> {
    seq![82u8, 101u8, 103u8, 105u8, 111u8, 110u8, 73u8, 100u8]
}

/// `RegionId` as an ASCII byte vector.
pub fn key_region_id_vec() -> (r: Vec<u8>)
    ensures
        r@ == key_region_id(),
{
    let r: Vec<u8> = vec![82u8, 101u8, 103u8, 105u8, 111u8, 110u8, 73u8, 100u8];
    proof {
        assert(r@ =~= key_region_id());
    }
    r
}

/// `SignName` as ASCII bytes.
pub open spec fn key_sign_name() -> Seq<u8> {
    seq![83u8, 105u8, 103u8, 110u8, 78u8, 97u8, 109u8, 101u8]
}

/// `SignName` as an ASCII byte vector.
pub fn key_sign_name_vec() -> (r: Vec<u8>)
    ensures
        r@ == key_sign_name(),
{
    let r: Vec<u8> = vec![83u8, 105u8, 103u8, 110u8, 78u8, 97u8, 109u8, 101u8];
    proof {
        assert(r@ =~= key_sign_name());
    }
    r
}

/// `SignatureMethod` as ASCII bytes.
pub open spec fn key_signature_method() -> Seq<u8> {
    seq![83u8, 105u8, 103u8, 110u8, 97u8, 116u8, 117u8, 114u8, 101u8, 77u8, 101u8, 116u8, 104u8, 111u8, 100u8]
}

/// `SignatureMethod` as an ASCII byte vector.
pub fn key_signature_method_vec() -> (r: Vec<u8>)
    ensures
        r@ == key_signature_method(),
{
    let r: Vec<u8> = vec![83u8, 105u8, 103u8, 110u8, 97u8, 116u8, 117u8, 114u8, 101u8, 77u8, 101u8, 116u8, 104u8, 111u8, 100u8];
    proof {
        assert(r@ =~= key_signature_method());
    }
    r
}

/// `SignatureNonce` as ASCII bytes.
pub open spec fn key_signature_nonce() -> Seq<u8> {
    seq![83u8, 105u8, 103u8, 110u8, 97u8, 116u8, 117u8, 114u8, 101u8, 78u8, 111u8, 110u8, 99u8, 101u8]
}

/// `SignatureNonce` as an ASCII byte vector.
pub fn key_signature_nonce_vec() -> (r: Vec<u8>)
    ensures
        r@ == key_signature_nonce(),
{
    let r: Vec<u8> = vec![83u8, 105u8, 103u8, 110u8, 97u8, 116u8, 117u8, 114u8, 101u8, 78u8, 111u8, 110u8, 99u8, 101u8];
    proof {
        assert(r@ =~= key_signature_nonce());
    }
    r
}

/// `SignatureVersion` as ASCII bytes.
pub open spec fn key_signature_version() -> Seq<u8> {
    seq![83u8, 105u8, 103u8, 110u8, 97u8, 116u8, 117u8, 114u8, 101u8, 86u8, 101u8, 114u8, 115u8, 105u8, 111u8, 110u8]
}

/// `SignatureVersion` as an ASCII byte vector.
pub fn key_signature_version_vec() -> (r: Vec<u8>)
    ensures
        r@ == key_signature_version(),
{
    let r: Vec<u8> = vec![83u8, 105u8, 103u8, 110u8, 97u8, 116u8, 117u8, 114u8, 101u8, 86u8, 101u8, 114u8, 115u8, 105u8, 111u8, 110u8];
    proof {
        assert(r@ =~= key_signature_version());
    }
    r
}

/// `TemplateCode` as ASCII bytes.
pub open spec fn key_template_code() -> Seq<u8> {
    seq![84u8, 101u8, 109u8, 112u8, 108u8, 97u8, 116u8, 101u8, 67u8, 111u8, 100u8, 101u8]
}

/// `TemplateCode` as an ASCII byte vector.
pub fn key_template_code_vec() -> (r: Vec<u8>)
    ensures
        r@ == key_template_code(),
{
    let r: Vec<u8> = vec![84u8, 101u8, 109u8, 112u8, 108u8, 97u8, 116u8, 101u8, 67u8, 111u8, 100u8, 101u8];
    proof {
        assert(r@ =~= key_template_code());
    }
    r
}

/// `TemplateParam` as ASCII bytes.
pub open spec fn key_template_param() -> Seq<u8> {
    seq![84u8, 101u8, 109u8, 112u8, 108u8, 97u8, 116u8, 101u8, 80u8, 97u8, 114u8, 97u8, 109u8]
}

/// `TemplateParam` as an ASCII byte vector.
pub fn key_template_param_vec() -> (r: Vec<u8>)
    ensures
        r@ == key_template_param(),
{
    let r: Vec<u8> = vec![84u8, 101u8, 109u8, 112u8, 108u8, 97u8, 116u8, 101u8, 80u8, 97u8, 114u8, 97u8, 109u8];
    proof {
        assert(r@ =~= key_template_param());
    }
    r
}

/// `Timestamp` as ASCII bytes.
pub open spec fn key_timestamp() -> Seq<u8> {
    seq![84u8, 105u8, 109u8, 101u8, 115u8, 116u8, 97u8, 109u8, 112u8]
}

/// `Timestamp` as an ASCII byte vector.
pub fn key_timestamp_vec() -> (r: Vec<u8>)
    ensures
        r@ == key_timestamp(),
{
    let r: Vec<u8> = vec![84u8, 105u8, 109u8, 101u8, 115u8, 116u8, 97u8, 109u8, 112u8];
    proof {
        assert(r@ =~= key_timestamp());
    }
    r
}

/// `Version` as ASCII bytes.
pub open spec fn key_version() -> Seq<u8> {
    seq![86u8, 101u8, 114u8, 115u8, 105u8, 111u8, 110u8]
}

/// `Version` as an ASCII byte vector.
pub fn key_version_vec() -> (r: Vec<u8>)
    ensures
        r@ == key_version(),
{
    let r: Vec<u8> = vec![86u8, 101u8, 114u8, 115u8, 105u8, 111u8, 110u8];
    proof {
        assert(r@ =~= key_version());
    }
    r
}

/// `SendSms` as ASCII bytes.
pub open spec fn val_send_sms() -> Seq<u8> {
    seq![83u8, 101u8, 110u8, 100u8, 83u8, 109u8, 115u8]
}

/// `SendSms` as an ASCII byte vector.
pub fn val_send_sms_vec() -> (r: Vec<u8>)
    ensures
        r@ == val_send_sms(),
{
    let r: Vec<u8> = vec![83u8, 101u8, 110u8, 100u8, 83u8, 109u8, 115u8];
    proof {
        assert(r@ =~= val_send_sms());
    }
    r
}

/// `json` as ASCII bytes.
pub open spec fn val_json() -> Seq<u8> {
    seq![106u8, 115u8, 111u8, 110u8]
}

/// `json` as an ASCII byte vector.
pub fn val_json_vec() -> (r: Vec<u8>)
    ensures
        r@ == val_json(),
{
    let r: Vec<u8> = vec![106u8, 115u8, 111u8, 110u8];
    proof {
        assert(r@ =~= val_json());
    }
    r
}

/// `cn-hangzhou` as ASCII bytes.
pub open spec fn val_region() -> Seq<u8> {
    seq![99u8, 110u8, 45u8, 104u8, 97u8, 110u8, 103u8, 122u8, 104u8, 111u8, 117u8]
}

/// `cn-hangzhou` as an ASCII byte vector.
pub fn val_region_vec() -> (r: Vec<u8>)
    ensures
        r@ == val_region(),
{
    let r: Vec<u8> = vec![99u8, 110u8, 45u8, 104u8, 97u8, 110u8, 103u8, 122u8, 104u8, 111u8, 117u8];
    proof {
        assert(r@ =~= val_region());
    }
    r
}

/// `HMAC-SHA1` as ASCII bytes.
pub open spec fn val_hmac_sha1_name() -> Seq<u8> {
    seq![72u8, 77u8, 65u8, 67u8, 45u8, 83u8, 72u8, 65u8, 49u8]
}

/// `HMAC-SHA1` as an ASCII byte vector.
pub fn val_hmac_sha1_name_vec() -> (r: Vec<u8>)
    ensures
        r@ == val_hmac_sha1_name(),
{
    let r: Vec<u8> = vec![72u8, 77u8, 65u8, 67u8, 45u8, 83u8, 72u8, 65u8, 49u8];
    proof {
        assert(r@ =~= val_hmac_sha1_name());
    }
    r
}

/// `1.0` as ASCII bytes.
pub open spec fn val_signature_version_value() -> Seq<u8> {
    seq![49u8, 46u8, 48u8]
}

/// `1.0` as an ASCII byte vector.
pub fn val_signature_version_value_vec() -> (r: Vec<u8>)
    ensures
        r@ == val_signature_version_value(),
{
    let r: Vec<u8> = vec![49u8, 46u8, 48u8];
    proof {
        assert(r@ =~= val_signature_version_value());
    }
    r
}

/// `2017-05-25` as ASCII bytes.
pub open spec fn val_api_version() -> Seq<u8> {
    seq![50u8, 48u8, 49u8, 55u8, 45u8, 48u8, 53u8, 45u8, 50u8, 53u8]
}

/// `2017-05-25` as an ASCII byte vector.
pub fn val_api_version_vec() -> (r: Vec<u8>)
    ensures
        r@ == val_api_version(),
{
    let r: Vec<u8> = vec![50u8, 48u8, 49u8, 55u8, 45u8, 48u8, 53u8, 45u8, 50u8, 53u8];
    proof {
        assert(r@ =~= val_api_version());
    }
    r
}

} // verus!