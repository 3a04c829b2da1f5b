//! The request signer: an immutable credential pair and the operations
//! that assemble a signed request URL for the provider's send-SMS call.

use vstd::prelude::*;
use vstd::string::*;
use crate::canonical::{
    canonical_bytes, canonical_of, encoded_pairs, lemma_pair_encoding_distinct, pair_encoding,
    pairs_budget, pairs_views,
};
use crate::clock::{fresh_nonce, now_rfc3339_seconds};
use crate::encode::{all_unreserved, encode_bytes, percent_encode_bytes};
use crate::order::{count_of, lemma_count_of_unique, lemma_sort_bytes, sort_bytes};
use crate::proto::{
    key_access_key_id, key_access_key_id_vec, key_action, key_action_vec, key_format,
    key_format_vec, key_phone_numbers, key_phone_numbers_vec, key_region_id, key_region_id_vec,
    key_sign_name, key_sign_name_vec, key_signature_method, key_signature_method_vec,
    key_signature_nonce, key_signature_nonce_vec, key_signature_version,
    key_signature_version_vec, key_template_code, key_template_code_vec, key_template_param,
    key_template_param_vec, key_timestamp, key_timestamp_vec, key_version, key_version_vec,
    val_api_version, val_api_version_vec, val_hmac_sha1_name, val_hmac_sha1_name_vec, val_json,
    val_json_vec, val_region, val_region_vec, val_send_sms, val_send_sms_vec,
    val_signature_version_value, val_signature_version_value_vec,
};
use crate::sign::{base64_of, hmac_sha1, hmac_sha1_of, string_to_sign, string_to_sign_of};
use crate::text::{ascii_to_string, chars_of_bytes};
use vstd::utf8::encode_utf8;

verus! {

/// Byte-length bound kept on every string fed into a request. It keeps all
/// derived strings far below the signing primitive's input limit.
pub open spec fn len_limit() -> nat {
    0x100000
}

/// Views of a list of string parameters, as UTF-8 byte pairs.
pub open spec fn string_pairs_views(ps: Seq<(String, String)>) -> Seq<(Seq<u8>, Seq<u8>)> {
    ps.map_values(|p: (String, String)| (encode_utf8(p.0@), encode_utf8(p.1@)))
}

/// The full parameter list of a send request: the fixed protocol
/// parameters together with the per-call values. The order here only fixes
/// the specification; the canonical form sorts the encoded pairs.
pub open spec fn params_of(
    id: Seq<u8>,
    nonce: Seq<u8>,
    ts: Seq<u8>,
    pn: Seq<u8>,
    sn: Seq<u8>,
    tc: Seq<u8>,
    tp: Seq<u8>,
) -> Seq<(Seq<u8>, Seq<u8>)> {
    seq![
        (key_access_key_id(), id),
        (key_action(), val_send_sms()),
        (key_format(), val_json()),
        (key_phone_numbers(), pn),
        (key_region_id(), val_region()),
        (key_sign_name(), sn),
        (key_signature_method(), val_hmac_sha1_name()),
        (key_signature_nonce(), nonce),
        (key_signature_version(), val_signature_version_value()),
        (key_template_code(), tc),
        (key_template_param(), tp),
        (key_timestamp(), ts),
        (key_version(), val_api_version()),
    ]
}

/// The signature laid over a request: base64 of the HMAC-SHA1 tag of the
/// string-to-sign, keyed by the access secret followed by `&`.
pub open spec fn signature_of(secret: Seq<u8>, message: Seq<u8>) -> Seq<char> {
    base64_of(hmac_sha1_of(secret + seq![38u8], message))
}

/// The full signed URL of a send request: the fixed endpoint, the
/// canonical query string of the parameter list, and the percent-encoded
/// signature appended after signing (the signature never covers itself).
pub open spec fn signed_url_chars(
    id: Seq<u8>,
    secret: Seq<u8>,
    pn: Seq<u8>,
    sn: Seq<u8>,
    tc: Seq<u8>,
    tp: Seq<u8>,
    ts: Seq<u8>,
    nonce: Seq<u8>,
) -> Seq<char> {
    let canonical = canonical_of(params_of(id, nonce, ts, pn, sn, tc, tp));
    let sig = signature_of(secret, string_to_sign_of(canonical));
    "https://dysmsapi.aliyuncs.com/?"@ + chars_of_bytes(canonical) + "&Signature="@
        + chars_of_bytes(encode_bytes(encode_utf8(sig)))
}

/// A stateless signer holding one immutable credential pair. The key id is
/// sent as an ordinary parameter; the secret is used only as HMAC key
/// material and never leaves the signer.
pub struct Aliyun {
    access_key_id: String,
    access_secret: String,
}

impl Aliyun {
    /// The access key id, as UTF-8 bytes.
    pub closed spec fn key_id_bytes(&self) -> Seq<u8> {
        encode_utf8(self.access_key_id@)
    }

    /// The access secret, as UTF-8 bytes.
    pub closed spec fn secret_bytes(&self) -> Seq<u8> {
        encode_utf8(self.access_secret@)
    }

    /// Both credential strings stay within the request length bound.
    pub open spec fn wf(&self) -> bool {
        self.key_id_bytes().len() <= len_limit() && self.secret_bytes().len() <= len_limit()
    }

    /// Build a signer from a credential pair. The signer keeps its own
    /// copy of both strings and never changes them.
    pub fn new(access_key_id: &str, access_secret: &str) -> (r: Self)
        requires
            access_key_id.spec_bytes().len() <= len_limit(),
            access_secret.spec_bytes().len() <= len_limit(),
        ensures
            r.key_id_bytes() == access_key_id.spec_bytes(),
            r.secret_bytes() == access_secret.spec_bytes(),
            r.wf(),
    {
        Aliyun {
            access_key_id: access_key_id.to_owned(),
            access_secret: access_secret.to_owned(),
        }
    }

    /// The canonical query string of a parameter list: every `key=value`
    /// strictly percent-encoded, the pair strings sorted in ascending byte
    /// order, joined with `&`. A pure function of the list: fixed
    /// parameters give a byte-identical result on every run.
    pub fn canonicalize_query_string(&self, params: &Vec<(String, String)>) -> (r: String)
        ensures
            r@ == chars_of_bytes(canonical_of(string_pairs_views(params@))),
    {
        let mut bp: Vec<(Vec<u8>, Vec<u8>)> = Vec::new();
        let mut i: usize = 0;
        while i < params.len()
            invariant
                i <= params@.len(),
                pairs_views(bp@) == string_pairs_views(params@).take(i as int),
            decreases params@.len() - i,
        {
            let k = params[i].0.as_str().as_bytes_vec();
            let v = params[i].1.as_str().as_bytes_vec();
            let ghost pre = bp@;
            bp.push((k, v));
            proof {
                assert(bp@ == pre.push((k, v)));
                assert(pairs_views(pre).len() == pre.len());
                assert(pre.len() == i);
                assert forall|j: int| 0 <= j < i + 1 implies pairs_views(bp@)[j]
                    == string_pairs_views(params@).take(i + 1)[j] by {
                    if j < i {
                        assert(bp@[j] == pre[j]);
                        assert(pairs_views(pre)[j] == string_pairs_views(params@).take(
                            i as int,
                        )[j]);
                    } else {
                        assert(bp@[j] == (k, v));
                    }
                }
                assert(pairs_views(bp@) =~= string_pairs_views(params@).take(i + 1));
            }
            i = i + 1;
        }
        proof {
            assert(string_pairs_views(params@).take(params@.len() as int) =~= string_pairs_views(
                params@,
            ));
        }
        let c = canonical_bytes(&bp);
        ascii_to_string(c)
    }

    /// The request signature of a string-to-sign: base64 of its HMAC-SHA1
    /// tag under the key `access_secret + "&"`.
    pub fn signature(&self, string_to_sign: &[u8]) -> (r: String)
        requires
            self.wf(),
            string_to_sign@.len() < 0x400000000000000,
        ensures
            r@ == signature_of(self.secret_bytes(), string_to_sign@),
    {
        let mut key = self.access_secret.as_str().as_bytes_vec();
        key.push(38);
        proof {
            assert(key@ =~= self.secret_bytes() + seq![38u8]);
        }
        let tag = hmac_sha1(key.as_slice(), string_to_sign);
        crate::sign::base64_string(tag.as_slice())
    }

    /// The parameter list of one send request, as byte pairs.
    fn build_params(
        &self,
        phone_numbers: &str,
        sign_name: &str,
        template_code: &str,
        template_param: &str,
        timestamp: &str,
        signature_nonce: &str,
    ) -> (r: Vec<(Vec<u8>, Vec<u8>)>)
        ensures
            pairs_views(r@) == params_of(
                self.key_id_bytes(),
                signature_nonce.spec_bytes(),
                timestamp.spec_bytes(),
                phone_numbers.spec_bytes(),
                sign_name.spec_bytes(),
                template_code.spec_bytes(),
                template_param.spec_bytes(),
            ),
    {
        let mut r: Vec<(Vec<u8>, Vec<u8>)> = Vec::new();
        r.push((key_access_key_id_vec(), self.access_key_id.as_str().as_bytes_vec()));
        r.push((key_action_vec(), val_send_sms_vec()));
        r.push((key_format_vec(), val_json_vec()));
        r.push((key_phone_numbers_vec(), phone_numbers.as_bytes_vec()));
        r.push((key_region_id_vec(), val_region_vec()));
        r.push((key_sign_name_vec(), sign_name.as_bytes_vec()));
        r.push((key_signature_method_vec(), val_hmac_sha1_name_vec()));
        r.push((key_signature_nonce_vec(), signature_nonce.as_bytes_vec()));
        r.push((key_signature_version_vec(), val_signature_version_value_vec()));
        r.push((key_template_code_vec(), template_code.as_bytes_vec()));
        r.push((key_template_param_vec(), template_param.as_bytes_vec()));
        r.push((key_timestamp_vec(), timestamp.as_bytes_vec()));
        r.push((key_version_vec(), val_api_version_vec()));
        proof {
            assert(pairs_views(r@) =~= params_of(
                self.key_id_bytes(),
                signature_nonce.spec_bytes(),
                timestamp.spec_bytes(),
                phone_numbers.spec_bytes(),
                sign_name.spec_bytes(),
                template_code.spec_bytes(),
                template_param.spec_bytes(),
            ));
        }
        r
    }

    /// The signed request URL of a send request with the given timestamp
    /// and nonce: endpoint, canonical query string, appended signature.
    /// A pure function of its inputs, as the provider's scheme demands.
    pub fn signed_request_url(
        &self,
        phone_numbers: &str,
        sign_name: &str,
        template_code: &str,
        template_param: &str,
        timestamp: &str,
        signature_nonce: &str,
    ) -> (r: String)
        requires
            self.wf(),
            phone_numbers.spec_bytes().len() <= len_limit(),
            sign_name.spec_bytes().len() <= len_limit(),
            template_code.spec_bytes().len() <= len_limit(),
            template_param.spec_bytes().len() <= len_limit(),
            timestamp.spec_bytes().len() <= len_limit(),
            signature_nonce.spec_bytes().len() <= len_limit(),
        ensures
            r@ == signed_url_chars(
                self.key_id_bytes(),
                self.secret_bytes(),
                phone_numbers.spec_bytes(),
                sign_name.spec_bytes(),
                template_code.spec_bytes(),
                template_param.spec_bytes(),
                timestamp.spec_bytes(),
                signature_nonce.spec_bytes(),
            ),
    {
        let ps = self.build_params(
            phone_numbers,
            sign_name,
            template_code,
            template_param,
            timestamp,
            signature_nonce,
        );
        let canonical = canonical_bytes(&ps);
        proof {
            lemma_params_budget(
                self.key_id_bytes(),
                signature_nonce.spec_bytes(),
                timestamp.spec_bytes(),
                phone_numbers.spec_bytes(),
                sign_name.spec_bytes(),
                template_code.spec_bytes(),
                template_param.spec_bytes(),
            );
        }
        let sts = string_to_sign(canonical.as_slice());
        let sig = self.signature(sts.as_slice());
        let sig_bytes = sig.as_str().as_bytes_vec();
        let enc_sig = percent_encode_bytes(sig_bytes.as_slice());
        let enc_sig_str = ascii_to_string(enc_sig);
        let canonical_str = ascii_to_string(canonical);
        let mut url = String::new();
        url.append("https://dysmsapi.aliyuncs.com/?");
        url.append(canonical_str.as_str());
        url.append("&Signature=");
        url.append(enc_sig_str.as_str());
        proof {
            assert(url@ =~= signed_url_chars(
                self.key_id_bytes(),
                self.secret_bytes(),
                phone_numbers.spec_bytes(),
                sign_name.spec_bytes(),
                template_code.spec_bytes(),
                template_param.spec_bytes(),
                timestamp.spec_bytes(),
                signature_nonce.spec_bytes(),
            ));
        }
        url
    }

    /// The signed request URL of a send request, stamped with the current
    /// UTC time and a fresh nonce. Every outcome of the clock yields a URL
    /// of the stated shape; the timestamp and nonce it was stamped with
    /// stand in the URL itself.
    pub fn send_sms_url(
        &self,
        phone_numbers: &str,
        sign_name: &str,
        template_code: &str,
        template_param: &str,
    ) -> (r: String)
        requires
            self.wf(),
            phone_numbers.spec_bytes().len() <= len_limit(),
            sign_name.spec_bytes().len() <= len_limit(),
            template_code.spec_bytes().len() <= len_limit(),
            template_param.spec_bytes().len() <= len_limit(),
        ensures
            exists|ts: Seq<u8>, nonce: Seq<u8>|
                r@ == signed_url_chars(
                    self.key_id_bytes(),
                    self.secret_bytes(),
                    phone_numbers.spec_bytes(),
                    sign_name.spec_bytes(),
                    template_code.spec_bytes(),
                    template_param.spec_bytes(),
                    ts,
                    nonce,
                ),
    {
        let ts = now_rfc3339_seconds();
        let nonce = fresh_nonce();
        let ts_probe = ts.as_str().as_bytes_vec();
        let nonce_probe = nonce.as_str().as_bytes_vec();
        if ts_probe.len() <= 0x100000 && nonce_probe.len() <= 0x100000 {
            let r = self.signed_request_url(
                phone_numbers,
                sign_name,
                template_code,
                template_param,
                ts.as_str(),
                nonce.as_str(),
            );
            proof {
                let tsb = encode_utf8(ts@);
                let nb = encode_utf8(nonce@);
                assert(r@ == signed_url_chars(
                    self.key_id_bytes(),
                    self.secret_bytes(),
                    phone_numbers.spec_bytes(),
                    sign_name.spec_bytes(),
                    template_code.spec_bytes(),
                    template_param.spec_bytes(),
                    tsb,
                    nb,
                ));
            }
            r
        } else {
            proof {
                reveal_strlit("");
                assert(""@.len() == 0);
            }
            let r = self.signed_request_url(
                phone_numbers,
                sign_name,
                template_code,
                template_param,
                "",
                "",
            );
            proof {
                let tsb = encode_utf8(""@);
                assert(r@ == signed_url_chars(
                    self.key_id_bytes(),
                    self.secret_bytes(),
                    phone_numbers.spec_bytes(),
                    sign_name.spec_bytes(),
                    template_code.spec_bytes(),
                    template_param.spec_bytes(),
                    tsb,
                    tsb,
                ));
            }
            r
        }
    }
}

/// The parameter list's length budget, written out in the lengths of the
/// variable values.
pub proof fn lemma_params_budget(
    id: Seq<u8>,
    nonce: Seq<u8>,
    ts: Seq<u8>,
    pn: Seq<u8>,
    sn: Seq<u8>,
    tc: Seq<u8>,
    tp: Seq<u8>,
)
    ensures
        pairs_budget(params_of(id, nonce, ts, pn, sn, tc, tp)) == 556 + 3 * (id.len()
            + nonce.len() + ts.len() + pn.len() + sn.len() + tc.len() + tp.len()),
{
    let s0 = params_of(id, nonce, ts, pn, sn, tc, tp);
    let s1 = s0.drop_first();
    let s2 = s1.drop_first();
    let s3 = s2.drop_first();
    let s4 = s3.drop_first();
    let s5 = s4.drop_first();
    let s6 = s5.drop_first();
    let s7 = s6.drop_first();
    let s8 = s7.drop_first();
    let s9 = s8.drop_first();
    let s10 = s9.drop_first();
    let s11 = s10.drop_first();
    let s12 = s11.drop_first();
    let s13 = s12.drop_first();
    assert(s0[0] == (key_access_key_id(), id));
    assert(s1[0] == (key_action(), val_send_sms()));
    assert(s2[0] == (key_format(), val_json()));
    assert(s3[0] == (key_phone_numbers(), pn));
    assert(s4[0] == (key_region_id(), val_region()));
    assert(s5[0] == (key_sign_name(), sn));
    assert(s6[0] == (key_signature_method(), val_hmac_sha1_name()));
    assert(s7[0] == (key_signature_nonce(), nonce));
    assert(s8[0] == (key_signature_version(), val_signature_version_value()));
    assert(s9[0] == (key_template_code(), tc));
    assert(s10[0] == (key_template_param(), tp));
    assert(s11[0] == (key_timestamp(), ts));
    assert(s12[0] == (key_version(), val_api_version()));
    assert(s13.len() == 0);
    assert(pairs_budget(s13) == 0);
    assert(pairs_budget(s12) == 52);
    assert(pairs_budget(s11) == 80 + 3 * (ts.len()));
    assert(pairs_budget(s10) == 120 + 3 * (tp.len() + ts.len()));
    assert(pairs_budget(s9) == 157 + 3 * (tc.len() + tp.len() + ts.len()));
    assert(pairs_budget(s8) == 215 + 3 * (tc.len() + tp.len() + ts.len()));
    assert(pairs_budget(s7) == 258 + 3 * (nonce.len() + tc.len() + tp.len() + ts.len()));
    assert(pairs_budget(s6) == 331 + 3 * (nonce.len() + tc.len() + tp.len() + ts.len()));
    assert(pairs_budget(s5) == 356 + 3 * (sn.len() + nonce.len() + tc.len() + tp.len() + ts.len()));
    assert(pairs_budget(s4) == 414 + 3 * (sn.len() + nonce.len() + tc.len() + tp.len() + ts.len()));
    assert(pairs_budget(s3) == 451 + 3 * (pn.len() + sn.len() + nonce.len() + tc.len() + tp.len() + ts.len()));
    assert(pairs_budget(s2) == 482 + 3 * (pn.len() + sn.len() + nonce.len() + tc.len() + tp.len() + ts.len()));
    assert(pairs_budget(s1) == 522 + 3 * (pn.len() + sn.len() + nonce.len() + tc.len() + tp.len() + ts.len()));
    assert(pairs_budget(s0) == 556 + 3 * (id.len() + pn.len() + sn.len() + nonce.len() + tc.len() + tp.len() + ts.len()));
}

/// Each business parameter stands in the canonical pair list exactly once,
/// correctly encoded: sorting keeps every occurrence, the pair stands at
/// one position of the parameter list, and its key tells it apart from
/// every other pair whatever the values are. The canonical query string is
/// the `&`-join of this sorted list.
pub proof fn lemma_business_params_round_trip(
    id: Seq<u8>,
    nonce: Seq<u8>,
    ts: Seq<u8>,
    pn: Seq<u8>,
    sn: Seq<u8>,
    tc: Seq<u8>,
    tp: Seq<u8>,
)
    ensures
        count_of(
            sort_bytes(encoded_pairs(params_of(id, nonce, ts, pn, sn, tc, tp))),
            pair_encoding(key_phone_numbers(), pn),
        ) == 1,
        count_of(
            sort_bytes(encoded_pairs(params_of(id, nonce, ts, pn, sn, tc, tp))),
            pair_encoding(key_sign_name(), sn),
        ) == 1,
        count_of(
            sort_bytes(encoded_pairs(params_of(id, nonce, ts, pn, sn, tc, tp))),
            pair_encoding(key_template_code(), tc),
        ) == 1,
        count_of(
            sort_bytes(encoded_pairs(params_of(id, nonce, ts, pn, sn, tc, tp))),
            pair_encoding(key_template_param(), tp),
        ) == 1,
{
    let s = params_of(id, nonce, ts, pn, sn, tc, tp);
    let eps = encoded_pairs(s);
    lemma_sort_bytes(eps);
    assert(eps.len() == 13);
    assert(all_unreserved(key_access_key_id()));
    assert(all_unreserved(key_action()));
    assert(all_unreserved(key_format()));
    assert(all_unreserved(key_phone_numbers()));
    assert(all_unreserved(key_region_id()));
    assert(all_unreserved(key_sign_name()));
    assert(all_unreserved(key_signature_method()));
    assert(all_unreserved(key_signature_nonce()));
    assert(all_unreserved(key_signature_version()));
    assert(all_unreserved(key_template_code()));
    assert(all_unreserved(key_template_param()));
    assert(all_unreserved(key_timestamp()));
    assert(all_unreserved(key_version()));
    assert(eps[3] == pair_encoding(key_phone_numbers(), pn));
    assert forall|j: int| 0 <= j < 13 && j != 3 implies eps[j] != pair_encoding(key_phone_numbers(), pn) by {
        if j == 0 {
            assert(eps[0] == pair_encoding(key_access_key_id(), id));
            lemma_pair_encoding_distinct(key_access_key_id(), id, key_phone_numbers(), pn, 0);
        }
        if j == 1 {
            assert(eps[1] == pair_encoding(key_action(), val_send_sms()));
            lemma_pair_encoding_distinct(key_action(), val_send_sms(), key_phone_numbers(), pn, 0);
        }
        if j == 2 {
            assert(eps[2] == pair_encoding(key_format(), val_json()));
            lemma_pair_encoding_distinct(key_format(), val_json(), key_phone_numbers(), pn, 0);
        }
        if j == 4 {
            assert(eps[4] == pair_encoding(key_region_id(), val_region()));
            lemma_pair_encoding_distinct(key_region_id(), val_region(), key_phone_numbers(), pn, 0);
        }
        if j == 5 {
            assert(eps[5] == pair_encoding(key_sign_name(), sn));
            lemma_pair_encoding_distinct(key_sign_name(), sn, key_phone_numbers(), pn, 0);
        }
        if j == 6 {
            assert(eps[6] == pair_encoding(key_signature_method(), val_hmac_sha1_name()));
            lemma_pair_encoding_distinct(key_signature_method(), val_hmac_sha1_name(), key_phone_numbers(), pn, 0);
        }
        if j == 7 {
            assert(eps[7] == pair_encoding(key_signature_nonce(), nonce));
            lemma_pair_encoding_distinct(key_signature_nonce(), nonce, key_phone_numbers(), pn, 0);
        }
        if j == 8 {
            assert(eps[8] == pair_encoding(key_signature_version(), val_signature_version_value()));
            lemma_pair_encoding_distinct(key_signature_version(), val_signature_version_value(), key_phone_numbers(), pn, 0);
        }
        if j == 9 {
            assert(eps[9] == pair_encoding(key_template_code(), tc));
            lemma_pair_encoding_distinct(key_template_code(), tc, key_phone_numbers(), pn, 0);
        }
        if j == 10 {
            assert(eps[10] == pair_encoding(key_template_param(), tp));
            lemma_pair_encoding_distinct(key_template_param(), tp, key_phone_numbers(), pn, 0);
        }
        if j == 11 {
            assert(eps[11] == pair_encoding(key_timestamp(), ts));
            lemma_pair_encoding_distinct(key_timestamp(), ts, key_phone_numbers(), pn, 0);
        }
        if j == 12 {
            assert(eps[12] == pair_encoding(key_version(), val_api_version()));
            lemma_pair_encoding_distinct(key_version(), val_api_version(), key_phone_numbers(), pn, 0);
        }
    }
    lemma_count_of_unique(eps, pair_encoding(key_phone_numbers(), pn), 3);
    assert(eps[5] == pair_encoding(key_sign_name(), sn));
    assert forall|j: int| 0 <= j < 13 && j != 5 implies eps[j] != pair_encoding(key_sign_name(), sn) by {
        if j == 0 {
            assert(eps[0] == pair_encoding(key_access_key_id(), id));
            lemma_pair_encoding_distinct(key_access_key_id(), id, key_sign_name(), sn, 0);
        }
        if j == 1 {
            assert(eps[1] == pair_encoding(key_action(), val_send_sms()));
            lemma_pair_encoding_distinct(key_action(), val_send_sms(), key_sign_name(), sn, 0);
        }
        if j == 2 {
            assert(eps[2] == pair_encoding(key_format(), val_json()));
            lemma_pair_encoding_distinct(key_format(), val_json(), key_sign_name(), sn, 0);
        }
        if j == 3 {
            assert(eps[3] == pair_encoding(key_phone_numbers(), pn));
            lemma_pair_encoding_distinct(key_phone_numbers(), pn, key_sign_name(), sn, 0);
        }
        if j == 4 {
            assert(eps[4] == pair_encoding(key_region_id(), val_region()));
            lemma_pair_encoding_distinct(key_region_id(), val_region(), key_sign_name(), sn, 0);
        }
        if j == 6 {
            assert(eps[6] == pair_encoding(key_signature_method(), val_hmac_sha1_name()));
            lemma_pair_encoding_distinct(key_signature_method(), val_hmac_sha1_name(), key_sign_name(), sn, 4);
        }
        if j == 7 {
            assert(eps[7] == pair_encoding(key_signature_nonce(), nonce));
            lemma_pair_encoding_distinct(key_signature_nonce(), nonce, key_sign_name(), sn, 4);
        }
        if j == 8 {
            assert(eps[8] == pair_encoding(key_signature_version(), val_signature_version_value()));
            lemma_pair_encoding_distinct(key_signature_version(), val_signature_version_value(), key_sign_name(), sn, 4);
        }
        if j == 9 {
            assert(eps[9] == pair_encoding(key_template_code(), tc));
            lemma_pair_encoding_distinct(key_template_code(), tc, key_sign_name(), sn, 0);
        }
        if j == 10 {
            assert(eps[10] == pair_encoding(key_template_param(), tp));
            lemma_pair_encoding_distinct(key_template_param(), tp, key_sign_name(), sn, 0);
        }
        if j == 11 {
            assert(eps[11] == pair_encoding(key_timestamp(), ts));
            lemma_pair_encoding_distinct(key_timestamp(), ts, key_sign_name(), sn, 0);
        }
        if j == 12 {
            assert(eps[12] == pair_encoding(key_version(), val_api_version()));
            lemma_pair_encoding_distinct(key_version(), val_api_version(), key_sign_name(), sn, 0);
        }
    }
    lemma_count_of_unique(eps, pair_encoding(key_sign_name(), sn), 5);
    assert(eps[9] == pair_encoding(key_template_code(), tc));
    assert forall|j: int| 0 <= j < 13 && j != 9 implies eps[j] != pair_encoding(key_template_code(), tc) by {
        if j == 0 {
            assert(eps[0] == pair_encoding(key_access_key_id(), id));
            lemma_pair_encoding_distinct(key_access_key_id(), id, key_template_code(), tc, 0);
        }
        if j == 1 {
            assert(eps[1] == pair_encoding(key_action(), val_send_sms()));
            lemma_pair_encoding_distinct(key_action(), val_send_sms(), key_template_code(), tc, 0);
        }
        if j == 2 {
            assert(eps[2] == pair_encoding(key_format(), val_json()));
            lemma_pair_encoding_distinct(key_format(), val_json(), key_template_code(), tc, 0);
        }
        if j == 3 {
            assert(eps[3] == pair_encoding(key_phone_numbers(), pn));
            lemma_pair_encoding_distinct(key_phone_numbers(), pn, key_template_code(), tc, 0);
        }
        if j == 4 {
            assert(eps[4] == pair_encoding(key_region_id(), val_region()));
            lemma_pair_encoding_distinct(key_region_id(), val_region(), key_template_code(), tc, 0);
        }
        if j == 5 {
            assert(eps[5] == pair_encoding(key_sign_name(), sn));
            lemma_pair_encoding_distinct(key_sign_name(), sn, key_template_code(), tc, 0);
        }
        if j == 6 {
            assert(eps[6] == pair_encoding(key_signature_method(), val_hmac_sha1_name()));
            lemma_pair_encoding_distinct(key_signature_method(), val_hmac_sha1_name(), key_template_code(), tc, 0);
        }
        if j == 7 {
            assert(eps[7] == pair_encoding(key_signature_nonce(), nonce));
            lemma_pair_encoding_distinct(key_signature_nonce(), nonce, key_template_code(), tc, 0);
        }
        if j == 8 {
            assert(eps[8] == pair_encoding(key_signature_version(), val_signature_version_value()));
            lemma_pair_encoding_distinct(key_signature_version(), val_signature_version_value(), key_template_code(), tc, 0);
        }
        if j == 10 {
            assert(eps[10] == pair_encoding(key_template_param(), tp));
            lemma_pair_encoding_distinct(key_template_param(), tp, key_template_code(), tc, 8);
        }
        if j == 11 {
            assert(eps[11] == pair_encoding(key_timestamp(), ts));
            lemma_pair_encoding_distinct(key_timestamp(), ts, key_template_code(), tc, 1);
        }
        if j == 12 {
            assert(eps[12] == pair_encoding(key_version(), val_api_version()));
            lemma_pair_encoding_distinct(key_version(), val_api_version(), key_template_code(), tc, 0);
        }
    }
    lemma_count_of_unique(eps, pair_encoding(key_template_code(), tc), 9);
    assert(eps[10] == pair_encoding(key_template_param(), tp));
    assert forall|j: int| 0 <= j < 13 && j != 10 implies eps[j] != pair_encoding(key_template_param(), tp) by {
        if j == 0 {
            assert(eps[0] == pair_encoding(key_access_key_id(), id));
            lemma_pair_encoding_distinct(key_access_key_id(), id, key_template_param(), tp, 0);
        }
        if j == 1 {
            assert(eps[1] == pair_encoding(key_action(), val_send_sms()));
            lemma_pair_encoding_distinct(key_action(), val_send_sms(), key_template_param(), tp, 0);
        }
        if j == 2 {
            assert(eps[2] == pair_encoding(key_format(), val_json()));
            lemma_pair_encoding_distinct(key_format(), val_json(), key_template_param(), tp, 0);
        }
        if j == 3 {
            assert(eps[3] == pair_encoding(key_phone_numbers(), pn));
            lemma_pair_encoding_distinct(key_phone_numbers(), pn, key_template_param(), tp, 0);
        }
        if j == 4 {
            assert(eps[4] == pair_encoding(key_region_id(), val_region()));
            lemma_pair_encoding_distinct(key_region_id(), val_region(), key_template_param(), tp, 0);
        }
        if j == 5 {
            assert(eps[5] == pair_encoding(key_sign_name(), sn));
            lemma_pair_encoding_distinct(key_sign_name(), sn, key_template_param(), tp, 0);
        }
        if j == 6 {
            assert(eps[6] == pair_encoding(key_signature_method(), val_hmac_sha1_name()));
            lemma_pair_encoding_distinct(key_signature_method(), val_hmac_sha1_name(), key_template_param(), tp, 0);
        }
        if j == 7 {
            assert(eps[7] == pair_encoding(key_signature_nonce(), nonce));
            lemma_pair_encoding_distinct(key_signature_nonce(), nonce, key_template_param(), tp, 0);
        }
        if j == 8 {
            assert(eps[8] == pair_encoding(key_signature_version(), val_signature_version_value()));
            lemma_pair_encoding_distinct(key_signature_version(), val_signature_version_value(), key_template_param(), tp, 0);
        }
        if j == 9 {
            assert(eps[9] == pair_encoding(key_template_code(), tc));
            lemma_pair_encoding_distinct(key_template_code(), tc, key_template_param(), tp, 8);
        }
        if j == 11 {
            assert(eps[11] == pair_encoding(key_timestamp(), ts));
            lemma_pair_encoding_distinct(key_timestamp(), ts, key_template_param(), tp, 1);
        }
        if j == 12 {
            assert(eps[12] == pair_encoding(key_version(), val_api_version()));
            lemma_pair_encoding_distinct(key_version(), val_api_version(), key_template_param(), tp, 0);
        }
    }
    lemma_count_of_unique(eps, pair_encoding(key_template_param(), tp), 10);
}

} // verus!
