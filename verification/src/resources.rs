//! Embedded resources: small fixed files the library carries.

use vstd::prelude::*;
use vstd::string::StringSliceAdditionalSpecFns;

verus! {

/// The bytes of the `.keep` resource.
pub open spec fn keep_bytes() -> Seq<u8> {
    seq![123u8, 34u8, 109u8, 101u8, 115u8, 115u8, 97u8, 103u8, 101u8, 34u8, 58u8, 32u8, 34u8, 110u8, 111u8, 116u8, 104u8, 105u8, 110u8, 103u8, 32u8, 116u8, 111u8, 32u8, 115u8, 101u8, 101u8, 32u8, 104u8, 101u8, 114u8, 101u8, 34u8, 125u8]
}

/// The name bytes of the `.keep` resource.
pub open spec fn keep_name() -> Seq<u8> {
    seq![46u8, 107u8, 101u8, 101u8, 112u8]
}

/// Gets data for an embedded file, or nothing for an unknown name.
pub fn get_resource_data(name: &str) -> (r: Option<Vec<u8>>)
    ensures
        name.spec_bytes() == keep_name() ==> r is Some && r->Some_0@ == keep_bytes(),
        name.spec_bytes() != keep_name() ==> r is None,
{
    let kn: &[u8] = &[46, 107, 101, 101, 112];
    proof {
        assert(kn@ =~= keep_name());
    }
    if crate::pdf_object::bytes_eq(name.as_bytes(), kn) {
        let data: &[u8] = &[123, 34, 109, 101, 115, 115, 97, 103, 101, 34, 58, 32, 34, 110, 111, 116, 104, 105, 110, 103, 32, 116, 111, 32, 115, 101, 101, 32, 104, 101, 114, 101, 34, 125];
        let mut v: Vec<u8> = Vec::new();
        crate::helpers::write_all_count(&mut v, data);
        proof {
            assert(v@ =~= keep_bytes());
        }
        Option::Some(v)
    } else {
        Option::None
    }
}

/// Gets the contents of an embedded file as a string.
pub fn get_resource_string(name: &str) -> (r: Option<String>)
    ensures
        name.spec_bytes() == keep_name() ==> r is Some && vstd::utf8::encode_utf8(r->Some_0@)
            == keep_bytes(),
        name.spec_bytes() != keep_name() ==> r is None,
{
    match get_resource_data(name) {
        Option::Some(data) => {
            proof {
                assert(forall|i: int|
                    0 <= i < keep_bytes().len() ==> #[trigger] keep_bytes()[i] < 128);
                crate::helpers::lemma_ascii_valid_utf8(data@);
            }
            Option::Some(crate::helpers::string_from_utf8_bytes(data))
        },
        Option::None => Option::None,
    }
}

} // verus!
