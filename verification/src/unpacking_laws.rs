//! What is hidden in a buffer must come to light.

use crate::bytes::{holds_narrow, u32_at};
use crate::score::Score;
use crate::text::decimal;
use crate::text_laws::law_more_bytes_hide_nothing;
use crate::unpacking::{
    assessment_terms, base64_encoded, base64_group, decoded_payloads, header_scan, interesting_text,
    is_base64, law_base64_round_trip, min_len, packer_labels, packer_of, pe_shaped, run_end,
    token_tally, unpacking_indicators, xor_head, xor_image_at, xor_images, xor_scan, xor_texts,
    xored, PackerFamily,
};
use vstd::prelude::*;

verus! {

/// The bytes are those of an image: the two letters of a DOS header, and at the offset that
/// its last field gives the four bytes of a PE signature.
pub open spec fn is_image(data: Seq<u8>, offset: int) -> bool {
    &&& data.len() >= 0x40
    &&& data[0] == 0x4D && data[1] == 0x5A
    &&& offset == data[0x3c] + 0x100 * data[0x3d] + 0x10000 * data[0x3e] + 0x1000000 * data[0x3f]
    &&& offset + 4 <= data.len()
    &&& data[offset] == 0x50 && data[offset + 1] == 0x45 && data[offset + 2] == 0 && data[offset
        + 3] == 0
}

/// An image is recognised, and nothing else is.
pub proof fn law_images_are_recognised(data: Seq<u8>)
    ensures
        pe_shaped(data) <==> exists|offset: int| is_image(data, offset),
{
    if pe_shaped(data) {
        assert(is_image(data, u32_at(data, 0x3c) as int));
    }
}

proof fn lemma_xor_back(x: u8, k: u8)
    ensures
        (x ^ k) ^ k == x,
        (x ^ k) ^ x == k,
{
    assert((x ^ k) ^ k == x) by (bit_vector);
    assert((x ^ k) ^ x == k) by (bit_vector);
}

/// Taking a key off again gives back what was hidden with it.
pub proof fn law_xor_undoes_itself(data: Seq<u8>, key: u8)
    ensures
        xored(xored(data, key), key) == data,
{
    assert forall|i: int| 0 <= i < data.len() implies xored(xored(data, key), key)[i]
        == data[i] by {
        lemma_xor_back(data[i], key);
    }
    assert(xored(xored(data, key), key) =~= data);
}

proof fn lemma_image_counts(scan: Seq<u8>, from: int, at: int)
    requires
        0 <= from <= at < scan.len() - 0x40,
        xor_image_at(scan, at),
    ensures
        xor_images(scan, from, 0) >= 1,
    decreases at - from,
{
    if from < at && !xor_image_at(scan, from) {
        lemma_image_counts(scan, from + 1, at);
    }
}

/// An image that is hidden with one byte as its key is found, wherever it lies.
pub proof fn law_hidden_image_is_found(
    head: Seq<u8>,
    image: Seq<u8>,
    offset: int,
    tail: Seq<u8>,
    key: u8,
)
    requires
        is_image(image, offset),
        image.len() + tail.len() > 0x40,
        key != 0,
    ensures
        xor_images(head + xored(image, key) + tail, 0, 0) >= 1,
{
    let scan = head + xored(image, key) + tail;
    let at = head.len() as int;
    lemma_xor_back(0x4D, key);
    lemma_xor_back(image[1], key);
    lemma_xor_back(image[0x3c], key);
    lemma_xor_back(image[0x3d], key);
    lemma_xor_back(image[0x3e], key);
    lemma_xor_back(image[0x3f], key);
    lemma_xor_back(image[offset], key);
    lemma_xor_back(image[offset + 1], key);
    lemma_xor_back(image[offset + 2], key);
    lemma_xor_back(image[offset + 3], key);
    assert(scan[at] == image[0] ^ key);
    assert(scan[at + 1] == image[1] ^ key);
    assert(scan[at + 0x3c] == image[0x3c] ^ key);
    assert(scan[at + 0x3d] == image[0x3d] ^ key);
    assert(scan[at + 0x3e] == image[0x3e] ^ key);
    assert(scan[at + 0x3f] == image[0x3f] ^ key);
    assert(scan[at + offset] == image[offset] ^ key);
    assert(scan[at + offset + 1] == image[offset + 1] ^ key);
    assert(scan[at + offset + 2] == image[offset + 2] ^ key);
    assert(scan[at + offset + 3] == image[offset + 3] ^ key);
    assert(xor_image_at(scan, at));
    lemma_image_counts(scan, 0, at);
}

proof fn lemma_key_counts(head: Seq<u8>, from: nat, key: nat)
    requires
        from <= key < 256,
        interesting_text(xored(head, key as u8)),
    ensures
        xor_texts(head, from, 0) >= 1,
    decreases key - from,
{
    if from < key && !interesting_text(xored(head, from as u8)) {
        lemma_key_counts(head, from + 1, key);
    }
}

/// A command or an address that is hidden with one byte as its key is found.
pub proof fn law_hidden_text_is_found(plain: Seq<u8>, key: u8)
    requires
        interesting_text(plain),
        key != 0,
    ensures
        xor_texts(xored(plain, key), 1, 0) >= 1,
{
    law_xor_undoes_itself(plain, key);
    lemma_key_counts(xored(plain, key), 1, key as nat);
}

/// Commands and addresses are of interest wherever they stand.
pub proof fn law_text_of_interest_is_seen(a: Seq<u8>, data: Seq<u8>, b: Seq<u8>)
    requires
        holds_narrow(data, "http://"@) || holds_narrow(data, "https://"@) || holds_narrow(
            data,
            "powershell"@,
        ) || holds_narrow(data, "cmd.exe"@) || holds_narrow(data, "rundll32"@) || holds_narrow(
            data,
            "regsvr32"@,
        ) || holds_narrow(data, "appdata"@) || holds_narrow(data, "cookie"@),
    ensures
        interesting_text(a + data + b),
{
    let text = if holds_narrow(data, "http://"@) {
        "http://"@
    } else if holds_narrow(data, "https://"@) {
        "https://"@
    } else if holds_narrow(data, "powershell"@) {
        "powershell"@
    } else if holds_narrow(data, "cmd.exe"@) {
        "cmd.exe"@
    } else if holds_narrow(data, "rundll32"@) {
        "rundll32"@
    } else if holds_narrow(data, "regsvr32"@) {
        "regsvr32"@
    } else if holds_narrow(data, "appdata"@) {
        "appdata"@
    } else {
        "cookie"@
    };
    law_more_bytes_hide_nothing(a, data, b, text);
}

proof fn lemma_encoded_symbols(data: Seq<u8>)
    ensures
        forall|i: int|
            0 <= i < base64_encoded(data).len() ==> is_base64(#[trigger] base64_encoded(data)[i]),
        base64_encoded(data).len() == (data.len() + 2) / 3 * 4,
    decreases data.len(),
{
    if data.len() > 0 {
        let n = min_len(data.len(), 3);
        let group = base64_group(data.take(n));
        let rest = base64_encoded(data.skip(n));
        lemma_encoded_symbols(data.skip(n));
        assert(group.len() == 4);
        let whole = base64_encoded(data);
        assert forall|i: int| 0 <= i < whole.len() implies is_base64(#[trigger] whole[i]) by {
            if i < 4 {
                assert(whole[i] == group[i]);
                assert(i == 0 || i == 1 || i == 2 || i == 3);
            } else {
                assert(whole[i] == rest[i - 4]);
            }
        }
    }
}

proof fn lemma_run_of(head: Seq<u8>, run: Seq<u8>, tail: Seq<u8>, at: int)
    requires
        head.len() <= at <= head.len() + run.len(),
        forall|i: int| 0 <= i < run.len() ==> is_base64(#[trigger] run[i]),
        tail.len() > 0 ==> !is_base64(tail[0]),
    ensures
        run_end(head + run + tail, at) == head.len() + run.len(),
    decreases head.len() + run.len() - at,
{
    let data = head + run + tail;
    if at < head.len() + run.len() {
        assert(data[at] == run[at - head.len()]);
        lemma_run_of(head, run, tail, at + 1);
    } else if tail.len() > 0 {
        assert(data[at] == tail[0]);
    }
}

proof fn lemma_plain_head(head: Seq<u8>, rest: Seq<u8>, at: int)
    requires
        0 <= at <= head.len(),
        forall|i: int| 0 <= i < head.len() ==> !is_base64(#[trigger] head[i]),
    ensures
        token_tally(head + rest, at, 0) == token_tally(head + rest, head.len() as int, 0),
    decreases head.len() - at,
{
    if at < head.len() {
        assert((head + rest)[at] == head[at]);
        lemma_plain_head(head, rest, at + 1);
    }
}

/// An image that is hidden as base64 is found behind bytes that are no base64, where the text
/// is neither too short nor too long and does not run into what follows it.
pub proof fn law_encoded_image_is_found(
    head: Seq<u8>,
    image: Seq<u8>,
    offset: int,
    tail: Seq<u8>,
)
    requires
        is_image(image, offset),
        image.len() <= 3072,
        forall|i: int| 0 <= i < head.len() ==> !is_base64(#[trigger] head[i]),
        tail.len() > 0 ==> !is_base64(tail[0]),
    ensures
        token_tally(head + base64_encoded(image) + tail, 0, 0).1 >= 1,
{
    let run = base64_encoded(image);
    let data = head + run + tail;
    let at = head.len() as int;
    let end = at + run.len();
    lemma_encoded_symbols(image);
    lemma_run_of(head, run, tail, at);
    law_base64_round_trip(image);
    law_images_are_recognised(image);
    assert(data.subrange(at, end) =~= run);
    assert(data =~= head + (run + tail));
    lemma_plain_head(head, run + tail, 0);
    assert(data[at] == run[0]);
    assert(is_base64(run[0]));
    assert(24 <= run.len() <= 4096);
}

/// A payload that was decoded is told of, with how many there are.
pub proof fn law_decoded_payloads_are_told(data: Seq<u8>)
    ensures
        decoded_payloads(header_scan(data)) > 0 ==> unpacking_indicators(data).contains(
            "unpacking_decoded_embedded_pe"@,
        ) && unpacking_indicators(data).contains(
            "embedded_payload_decoded:"@ + decimal(decoded_payloads(header_scan(data))),
        ),
        xor_images(xor_scan(header_scan(data)), 0, 0) > 0 ==> unpacking_indicators(data).contains(
            "xor_obfuscated_pe"@,
        ) && decoded_payloads(header_scan(data)) > 0,
        token_tally(header_scan(data), 0, 0).1 > 0 ==> unpacking_indicators(data).contains(
            "base64_obfuscated_pe"@,
        ) && decoded_payloads(header_scan(data)) > 0,
        xor_texts(xor_head(header_scan(data)), 1, 0) > 0 ==> unpacking_indicators(data).contains(
            "xor_obfuscated_command_or_url"@,
        ),
{
    let scan = header_scan(data);
    let all = unpacking_indicators(data);
    let labels = packer_labels(packer_of(scan));
    let p = labels.len() as int;
    let a = token_tally(scan, 0, 0).1 as int;
    let b = xor_images(xor_scan(scan), 0, 0) as int;
    let c = xor_texts(xor_head(scan), 1, 0) as int;
    if a > 0 {
        assert(all[p] == "base64_obfuscated_pe"@);
    }
    if b > 0 {
        assert(all[p + a] == "xor_obfuscated_pe"@);
    }
    if c > 0 {
        assert(all[p + a + b] == "xor_obfuscated_command_or_url"@);
    }
    if decoded_payloads(scan) > 0 {
        assert(all[p + a + b + c] == "unpacking_decoded_embedded_pe"@);
        assert(all[p + a + b + c + 1] == "embedded_payload_decoded:"@ + decimal(
            decoded_payloads(scan),
        ));
    }
}

/// Buffers that are not too long are looked at whole.
pub proof fn law_short_buffers_are_seen_whole(data: Seq<u8>)
    ensures
        data.len() <= 0x80_0000 ==> header_scan(data) == data,
        data.len() <= 0x20_0000 ==> xor_scan(data) == data,
        data.len() <= 128 ==> xor_head(data) == data,
{
    assert(data.take(data.len() as int) =~= data);
}

/// The markers of a packer tell its family, the first family that has one; without a marker
/// there is no packer.
pub proof fn law_packers_are_told_by_their_markers(data: Seq<u8>)
    ensures
        ({
            let upx = holds_narrow(data, "UPX0"@) || holds_narrow(data, "UPX1"@) || holds_narrow(
                data,
                "UPX!"@,
            );
            let aspack = holds_narrow(data, "ASPack"@) || holds_narrow(data, ".aspack"@)
                || holds_narrow(data, ".adata"@);
            let themida = holds_narrow(data, "Themida"@) || holds_narrow(data, ".themida"@);
            let vmprotect = holds_narrow(data, "VMProtect"@) || holds_narrow(data, ".vmp0"@)
                || holds_narrow(data, ".vmp1"@);
            &&& packer_of(data) == Some(PackerFamily::Upx) <==> upx
            &&& packer_of(data) == Some(PackerFamily::Aspack) <==> aspack && !upx
            &&& packer_of(data) == Some(PackerFamily::Themida) <==> themida && !aspack && !upx
            &&& packer_of(data) == Some(PackerFamily::VmProtect) <==> vmprotect && !themida
                && !aspack && !upx
            &&& packer_of(data) is None <==> !vmprotect && !themida && !aspack && !upx
        }),
{
}

/// A packer stays seen whatever stands before and behind its marker.
pub proof fn law_more_bytes_hide_no_packer(a: Seq<u8>, data: Seq<u8>, b: Seq<u8>)
    requires
        packer_of(data) is Some,
    ensures
        packer_of(a + data + b) is Some,
{
    let text = if holds_narrow(data, "UPX0"@) {
        "UPX0"@
    } else if holds_narrow(data, "UPX1"@) {
        "UPX1"@
    } else if holds_narrow(data, "UPX!"@) {
        "UPX!"@
    } else if holds_narrow(data, "ASPack"@) {
        "ASPack"@
    } else if holds_narrow(data, ".aspack"@) {
        ".aspack"@
    } else if holds_narrow(data, ".adata"@) {
        ".adata"@
    } else if holds_narrow(data, "Themida"@) {
        "Themida"@
    } else if holds_narrow(data, ".themida"@) {
        ".themida"@
    } else if holds_narrow(data, "VMProtect"@) {
        "VMProtect"@
    } else if holds_narrow(data, ".vmp0"@) {
        ".vmp0"@
    } else {
        ".vmp1"@
    };
    law_more_bytes_hide_nothing(a, data, b, text);
}

/// A packer weighs 0.15, decoded text 0.15 more and decoded images 0.65 more; nothing found
/// weighs nothing.
pub proof fn law_findings_weigh(strings: nat, payloads: nat, packed: bool)
    ensures
        ({
            let terms = assessment_terms(packed, strings, payloads);
            &&& terms[0].units == if packed {
                Score::of_hundredths(15).units
            } else {
                0u128
            }
            &&& payloads > 0 ==> terms.last() == Score::of_hundredths(65)
            &&& strings > 0 ==> terms[1] == Score::of_hundredths(15)
            &&& terms.len() == 1 + (if strings > 0 {
                1int
            } else {
                0int
            }) + (if payloads > 0 {
                1int
            } else {
                0int
            })
        }),
{
}

} // verus!
