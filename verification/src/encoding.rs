//! Decoding of chart files whose text encoding is not recorded: each
//! character is taken from the first encoding, in priority order, that
//! decodes a short run of bytes cleanly.
use vstd::prelude::*;

use vstd::utf8::encode_utf8;

use crate::text::{push_char, str_chars, str_eq, string_from_chars};

verus! {

/// The I/O error that strict decoding reports, carried unchanged.
#[verifier::external_type_specification]
#[verifier::external_body]
pub struct ExIoError(std::io::Error);

/// The encoding that the BOFTT event forces for the work with id `id`.
pub open spec fn spec_boftt_encoding(id: Seq<char>) -> Option<Seq<char>> {
    if id == "134"@ {
        Some("utf-8"@)
    } else if id == "191"@ || id == "435"@ || id == "439"@ {
        Some("gbk"@)
    } else {
        None
    }
}

/// Get BOFTT encoding for a given ID.
pub fn get_boftt_encoding(id: &str) -> (r: Option<&'static str>)
    ensures
        match r {
            Some(e) => spec_boftt_encoding(id@) == Some(e@),
            None => spec_boftt_encoding(id@) is None,
        },
{
    if str_eq(id, "134") {
        Some("utf-8")
    } else if str_eq(id, "191") {
        Some("gbk")
    } else if str_eq(id, "435") {
        Some("gbk")
    } else if str_eq(id, "439") {
        Some("gbk")
    } else {
        None
    }
}

/// Whether `encoding_rs` knows an encoding by the label `label`.
pub uninterp spec fn spec_label_known(label: Seq<u8>) -> bool;

/// `Encoding::for_label(label).is_some()`: the answer is the named
/// predicate of the label; which labels `encoding_rs` knows is not restated.
#[verifier::external_body]
fn label_is_known(label: &[u8]) -> (r: bool)
    ensures
        r == spec_label_known(label@),
{
    encoding_rs::Encoding::for_label(label).is_some()
}

/// The text and the error flag that `encoding_rs` produces when it decodes
/// `bytes` with the encoding that `label` names (`Encoding::decode`).
pub uninterp spec fn spec_decode_with_label(label: Seq<u8>, bytes: Seq<u8>) -> (Seq<char>, bool);

/// Resolves `label` with `Encoding::for_label` and decodes `bytes` with
/// `Encoding::decode`, returning the text and whether malformed input was
/// met. The result is the named function of the label and the bytes; the
/// decoding tables themselves are not restated. Its buffer-size
/// computations overflow, and panic, only for inputs close to `usize::MAX`
/// bytes, which `requires` leaves out.
#[verifier::external_body]
fn decode_with_label(label: &[u8], bytes: &[u8]) -> (r: (String, bool))
    requires
        spec_label_known(label@),
        bytes@.len() <= usize::MAX / 4,
    ensures
        (r.0@, r.1) == spec_decode_with_label(label@, bytes@),
{
    let encoding = encoding_rs::Encoding::for_label(label).unwrap();
    let (text, _, had_errors) = encoding.decode(bytes);
    (text.into_owned(), had_errors)
}

/// The text that `Encoding::decode_without_bom_handling` yields for
/// `bytes` with `UTF_8`: malformed sequences become U+FFFD.
pub uninterp spec fn spec_utf8_lossy(bytes: Seq<u8>) -> Seq<char>;

/// `UTF_8.decode_without_bom_handling(bytes)`, keeping the text. Its size
/// computations overflow, and panic, only for inputs close to `usize::MAX`
/// bytes, which `requires` leaves out.
#[verifier::external_body]
fn utf8_decode_lossy(bytes: &[u8]) -> (r: String)
    requires
        bytes@.len() <= usize::MAX / 4,
    ensures
        r@ == spec_utf8_lossy(bytes@),
{
    let (text, _) = encoding_rs::UTF_8.decode_without_bom_handling(bytes);
    text.into_owned()
}

/// The error that strict decoding reports for the undecodable byte `byte`:
/// an `InvalidData` I/O error naming the byte. Nothing is claimed of it.
#[verifier::external_body]
fn undecodable_byte_error(byte: u8) -> std::io::Error {
    std::io::Error::new(
        std::io::ErrorKind::InvalidData,
        format!("Cannot decode byte sequence: {:02x?}", [byte]),
    )
}

/// The label that stands in for labels `encoding_rs` does not know.
pub open spec fn spec_fallback_label(label: Seq<char>) -> Option<Seq<char>> {
    if label == "shift-jis-2004"@ || label == "shift-jisx0213"@ {
        Some("shift_jis"@)
    } else {
        None
    }
}

/// The labels a decoder built from `labels` tries, in order: each known
/// label, or else its known fallback; other labels are dropped.
pub open spec fn spec_codecs(labels: Seq<Seq<char>>) -> Seq<Seq<u8>>
    decreases labels.len(),
{
    if labels.len() == 0 {
        seq![]
    } else {
        let rest = spec_codecs(labels.drop_last());
        let l = labels.last();
        if spec_label_known(encode_utf8(l)) {
            rest.push(encode_utf8(l))
        } else {
            match spec_fallback_label(l) {
                Some(f) => if spec_label_known(encode_utf8(f)) {
                    rest.push(encode_utf8(f))
                } else {
                    rest
                },
                None => rest,
            }
        }
    }
}

/// The text that one encoding yields for `len` bytes at `start`, when it
/// decodes them without error into at least one character.
pub open spec fn chunk_text(label: Seq<u8>, bytes: Seq<u8>, start: int, len: int) -> Option<
    Seq<char>,
> {
    let (text, had_errors) = spec_decode_with_label(
        label,
        bytes.subrange(start, start + len),
    );
    if !had_errors && text.len() > 0 {
        Some(text)
    } else {
        None
    }
}

/// The shortest run of `len`..=4 bytes at `start`, within the input, that
/// `label` decodes cleanly, with its text.
pub open spec fn chunk_for(label: Seq<u8>, bytes: Seq<u8>, start: int, len: int) -> Option<
    (Seq<char>, int),
>
    decreases 5 - len,
{
    if len < 1 || len > 4 || start < 0 || start + len > bytes.len() {
        None
    } else {
        match chunk_text(label, bytes, start, len) {
            Some(t) => Some((t, len)),
            None => chunk_for(label, bytes, start, len + 1),
        }
    }
}

/// The first encoding from index `i` on that decodes a short run at
/// `start`, with the text and the length of that run.
pub open spec fn first_chunk(codecs: Seq<Seq<u8>>, i: int, bytes: Seq<u8>, start: int) -> Option<
    (Seq<char>, int),
>
    decreases codecs.len() - i,
{
    if i < 0 || i >= codecs.len() {
        None
    } else {
        match chunk_for(codecs[i], bytes, start, 1) {
            Some(r) => Some(r),
            None => first_chunk(codecs, i + 1, bytes, start),
        }
    }
}

/// How undecodable bytes are treated.
pub enum ErrorMode {
    /// A byte that no encoding decodes is an error.
    Strict,
    /// A byte that no encoding decodes becomes U+FFFD.
    Replace,
    /// A byte that no encoding decodes is dropped.
    Ignore,
}

/// The mode that an `errors` argument selects: `"strict"`, `"replace"`,
/// anything else ignores.
pub open spec fn spec_error_mode(errors: Seq<char>) -> ErrorMode {
    if errors == "strict"@ {
        ErrorMode::Strict
    } else if errors == "replace"@ {
        ErrorMode::Replace
    } else {
        ErrorMode::Ignore
    }
}

/// A run found by `chunk_for` is 1..=4 bytes long and lies in the input.
pub proof fn lemma_chunk_for_len(label: Seq<u8>, bytes: Seq<u8>, start: int, len: int)
    ensures
        chunk_for(label, bytes, start, len) matches Some((t, n)) ==> 1 <= n <= 4 && start + n
            <= bytes.len() && len <= n,
    decreases 5 - len,
{
    if len >= 1 && len <= 4 && start >= 0 && start + len <= bytes.len() {
        if chunk_text(label, bytes, start, len) is None {
            lemma_chunk_for_len(label, bytes, start, len + 1);
        }
    }
}

/// A run found by `first_chunk` is 1..=4 bytes long and lies in the input.
pub proof fn lemma_first_chunk_len(codecs: Seq<Seq<u8>>, i: int, bytes: Seq<u8>, start: int)
    ensures
        first_chunk(codecs, i, bytes, start) matches Some((t, n)) ==> 1 <= n <= 4 && start + n
            <= bytes.len(),
    decreases codecs.len() - i,
{
    if 0 <= i < codecs.len() {
        lemma_chunk_for_len(codecs[i], bytes, start, 1);
        if chunk_for(codecs[i], bytes, start, 1) is None {
            lemma_first_chunk_len(codecs, i + 1, bytes, start);
        }
    }
}

/// The text decoded from `pos` on, or `None` when strict mode meets a
/// byte that no encoding decodes.
pub open spec fn decode_from(codecs: Seq<Seq<u8>>, bytes: Seq<u8>, pos: int, mode: ErrorMode) -> Option<
    Seq<char>,
>
    decreases bytes.len() - pos,
{
    if pos < 0 || pos >= bytes.len() {
        Some(seq![])
    } else {
        match first_chunk(codecs, 0, bytes, pos) {
            Some((t, n)) => {
                proof {
                    lemma_first_chunk_len(codecs, 0, bytes, pos);
                }
                match decode_from(codecs, bytes, pos + n, mode) {
                    Some(rest) => Some(t + rest),
                    None => None,
                }
            },
            None => match mode {
                ErrorMode::Strict => None,
                ErrorMode::Replace => match decode_from(codecs, bytes, pos + 1, mode) {
                    Some(rest) => Some(seq!['\u{FFFD}'] + rest),
                    None => None,
                },
                ErrorMode::Ignore => decode_from(codecs, bytes, pos + 1, mode),
            },
        }
    }
}

/// Decoding in `"replace"` or `"ignore"` mode never fails.
pub proof fn lemma_lenient_decode_succeeds(codecs: Seq<Seq<u8>>, bytes: Seq<u8>, pos: int)
    ensures
        decode_from(codecs, bytes, pos, ErrorMode::Replace) is Some,
        decode_from(codecs, bytes, pos, ErrorMode::Ignore) is Some,
    decreases bytes.len() - pos,
{
    if 0 <= pos < bytes.len() {
        lemma_first_chunk_len(codecs, 0, bytes, pos);
        match first_chunk(codecs, 0, bytes, pos) {
            Some((t, n)) => {
                lemma_lenient_decode_succeeds(codecs, bytes, pos + n);
            },
            None => {
                lemma_lenient_decode_succeeds(codecs, bytes, pos + 1);
            },
        }
    }
}

/// Where strict decoding succeeds, the three modes give the same text.
pub proof fn lemma_modes_agree_when_strict_succeeds(codecs: Seq<Seq<u8>>, bytes: Seq<u8>, pos: int)
    requires
        decode_from(codecs, bytes, pos, ErrorMode::Strict) is Some,
    ensures
        decode_from(codecs, bytes, pos, ErrorMode::Replace) == decode_from(
            codecs,
            bytes,
            pos,
            ErrorMode::Strict,
        ),
        decode_from(codecs, bytes, pos, ErrorMode::Ignore) == decode_from(
            codecs,
            bytes,
            pos,
            ErrorMode::Strict,
        ),
    decreases bytes.len() - pos,
{
    if 0 <= pos < bytes.len() {
        lemma_first_chunk_len(codecs, 0, bytes, pos);
        match first_chunk(codecs, 0, bytes, pos) {
            Some((t, n)) => {
                lemma_modes_agree_when_strict_succeeds(codecs, bytes, pos + n);
            },
            None => {},
        }
    }
}

/// `PriorityDecoder` decodes byte data using several encodings in priority
/// order, trying 1-4 bytes at a time for each character.
pub struct PriorityDecoder {
    codecs: Vec<Vec<u8>>,
}

impl PriorityDecoder {
    /// Every label the decoder holds is one `encoding_rs` knows.
    #[verifier::type_invariant]
    closed spec fn wf(&self) -> bool {
        forall|k: int| 0 <= k < self.codecs@.len() ==> spec_label_known(#[trigger] self.codecs@[k]@)
    }

    /// The labels, in priority order, of the encodings this decoder tries.
    pub closed spec fn codecs(&self) -> Seq<Seq<u8>> {
        self.codecs@.map_values(|c: Vec<u8>| c@)
    }

    /// Create a new `PriorityDecoder` with encoding priority list.
    pub fn new(encoding_priority: &[&str]) -> (r: Self)
        ensures
            r.codecs() == spec_codecs(encoding_priority@.map_values(|s: &str| s@)),
    {
        let mut codecs: Vec<Vec<u8>> = Vec::new();
        let mut i: usize = 0;
        while i < encoding_priority.len()
            invariant
                i <= encoding_priority@.len(),
                codecs@.map_values(|c: Vec<u8>| c@) == spec_codecs(
                    encoding_priority@.subrange(0, i as int).map_values(|s: &str| s@),
                ),
            decreases encoding_priority.len() - i,
        {
            let enc: &str = encoding_priority[i];
            let label = bytes_to_vec(enc.as_bytes());
            let ghost prev = encoding_priority@.subrange(0, i as int).map_values(|s: &str| s@);
            let ghost next = encoding_priority@.subrange(0, i + 1).map_values(|s: &str| s@);
            assert(next.drop_last() =~= prev);
            assert(next.last() == enc@);
            if label_is_known(&label) {
                codecs.push(label);
            } else {
                match Self::fallback_encoding(enc) {
                    Some(f) => {
                        let flabel = bytes_to_vec(f.as_bytes());
                        if label_is_known(&flabel) {
                            codecs.push(flabel);
                        }
                    },
                    None => {},
                }
            }
            i = i + 1;
            assert(codecs@.map_values(|c: Vec<u8>| c@) =~= spec_codecs(next));
        }
        assert(encoding_priority@.subrange(0, encoding_priority@.len() as int)
            =~= encoding_priority@);
        proof {
            lemma_codecs_known(encoding_priority@.map_values(|s: &str| s@));
            assert forall|k: int| 0 <= k < codecs@.len() implies spec_label_known(
                #[trigger] codecs@[k]@,
            ) by {
                assert(codecs@.map_values(|c: Vec<u8>| c@)[k] == codecs@[k]@);
            }
        }
        PriorityDecoder { codecs }
    }

    /// The label used in place of a label that `encoding_rs` does not know.
    fn fallback_encoding(label: &str) -> (r: Option<&'static str>)
        ensures
            match r {
                Some(f) => spec_fallback_label(label@) == Some(f@),
                None => spec_fallback_label(label@) is None,
            },
    {
        if str_eq(label, "shift-jis-2004") || str_eq(label, "shift-jisx0213") {
            Some("shift_jis")
        } else {
            None
        }
    }

    /// Decode a single byte sequence using the encoding priority.
    /// Returns (`decoded_char`, `bytes_consumed`) or (None, 1) if all fail.
    fn decode_byte_sequence(&self, byte_data: &[u8], start: usize) -> (r: (Option<String>, usize))
        ensures
            match first_chunk(self.codecs(), 0, byte_data@, start as int) {
                Some((t, n)) => r.0 is Some && r.0->0@ == t && r.1 == n,
                None => r.0 is None && r.1 == 1,
            },
    {
        proof {
            use_type_invariant(self);
        }
        let mut ci: usize = 0;
        while ci < self.codecs.len()
            invariant
                ci <= self.codecs@.len(),
                forall|k: int| 0 <= k < self.codecs().len() ==> spec_label_known(#[trigger] self.codecs()[k]),
                first_chunk(self.codecs(), 0, byte_data@, start as int) == first_chunk(
                    self.codecs(),
                    ci as int,
                    byte_data@,
                    start as int,
                ),
            decreases self.codecs@.len() - ci,
        {
            let label: &Vec<u8> = &self.codecs[ci];
            assert(self.codecs()[ci as int] == label@);
            let mut length: usize = 1;
            while length <= 4
                invariant
                    1 <= length <= 5,
                    ci < self.codecs@.len(),
                    label@ == self.codecs()[ci as int],
                    spec_label_known(label@),
                    first_chunk(self.codecs(), 0, byte_data@, start as int) == first_chunk(
                        self.codecs(),
                        ci as int,
                        byte_data@,
                        start as int,
                    ),
                    chunk_for(label@, byte_data@, start as int, 1) == chunk_for(
                        label@,
                        byte_data@,
                        start as int,
                        length as int,
                    ),
                ensures
                    chunk_for(label@, byte_data@, start as int, 1) is None,
                decreases 5 - length,
            {
                if start > byte_data.len() || length > byte_data.len() - start {
                    break;
                }
                let chunk = bytes_range(byte_data, start, start + length);
                let (decoded, had_error) = decode_with_label(label, &chunk);
                assert(chunk@ == byte_data@.subrange(start as int, start + length));
                if !had_error && !decoded.as_str().is_empty() {
                    assert(chunk_text(label@, byte_data@, start as int, length as int) == Some(
                        decoded@,
                    ));
                    assert(chunk_for(label@, byte_data@, start as int, length as int) == Some(
                        (decoded@, length as int),
                    ));
                    assert(first_chunk(self.codecs(), ci as int, byte_data@, start as int) == Some(
                        (decoded@, length as int),
                    ));
                    return (Some(decoded), length);
                }
                assert(chunk_text(label@, byte_data@, start as int, length as int) is None);
                length = length + 1;
            }
            ci = ci + 1;
        }
        (None, 1)
    }

    /// Decode byte data using encoding priority. With `errors` equal to
    /// `"strict"`, a byte that no encoding decodes is an `InvalidData` error;
    /// with `"replace"` it becomes U+FFFD; with anything else it is dropped.
    pub fn decode(&self, byte_data: &[u8], errors: &str) -> (r: Result<String, std::io::Error>)
        ensures
            match decode_from(self.codecs(), byte_data@, 0, spec_error_mode(errors@)) {
                Some(t) => r matches Ok(s) && s@ == t,
                None => r is Err,
            },
    {
        proof {
            use_type_invariant(self);
        }
        let strict = str_eq(errors, "strict");
        let replace = str_eq(errors, "replace");
        let ghost mode = spec_error_mode(errors@);
        let ghost codecs = self.codecs();
        let mut result = String::new();
        let mut position: usize = 0;
        while position < byte_data.len()
            invariant
                position <= byte_data@.len(),
                codecs == self.codecs(),
                mode == spec_error_mode(errors@),
                strict == (errors@ == "strict"@),
                replace == (errors@ == "replace"@),
                forall|k: int| 0 <= k < codecs.len() ==> spec_label_known(#[trigger] codecs[k]),
                decode_from(codecs, byte_data@, 0, mode) == prepend(
                    result@,
                    decode_from(codecs, byte_data@, position as int, mode),
                ),
            decreases byte_data@.len() - position,
        {
            let (ch, consumed) = self.decode_byte_sequence(byte_data, position);
            proof {
                lemma_first_chunk_len(codecs, 0, byte_data@, position as int);
            }
            let ghost before = result@;
            match ch {
                Some(s) => {
                    result.append(s.as_str());
                    proof {
                        let rest = decode_from(codecs, byte_data@, position + consumed, mode);
                        if rest is Some {
                            assert(before + (s@ + rest->0) =~= (before + s@) + rest->0);
                        }
                    }
                },
                None => {
                    if strict {
                        return Err(undecodable_byte_error(byte_data[position]));
                    } else if replace {
                        push_char(&mut result, '\u{FFFD}');
                        proof {
                            let rest = decode_from(codecs, byte_data@, position + 1, mode);
                            if rest is Some {
                                assert(before + (seq!['\u{FFFD}'] + rest->0) =~= before.push(
                                    '\u{FFFD}',
                                ) + rest->0);
                            }
                        }
                    }
                },
            }
            position = position + consumed;
        }
        assert(result@ + Seq::<char>::empty() =~= result@);
        Ok(result)
    }
}

/// `prefix` put in front of a decoded text, keeping a failure a failure.
pub open spec fn prepend(prefix: Seq<char>, rest: Option<Seq<char>>) -> Option<Seq<char>> {
    match rest {
        Some(t) => Some(prefix + t),
        None => None,
    }
}

/// Every label that `spec_codecs` keeps is known to `encoding_rs`.
pub proof fn lemma_codecs_known(labels: Seq<Seq<char>>)
    ensures
        forall|k: int|
            0 <= k < spec_codecs(labels).len() ==> spec_label_known(#[trigger] spec_codecs(labels)[k]),
    decreases labels.len(),
{
    if labels.len() > 0 {
        let rest = spec_codecs(labels.drop_last());
        lemma_codecs_known(labels.drop_last());
        assert forall|k: int| 0 <= k < spec_codecs(labels).len() implies spec_label_known(
            #[trigger] spec_codecs(labels)[k],
        ) by {
            if k < rest.len() {
                assert(spec_codecs(labels)[k] == rest[k]);
            }
        }
    }
}

/// The encodings tried, in order, when a chart names none.
pub open spec fn spec_default_encodings() -> Seq<Seq<char>> {
    seq![
        "shift-jis"@,
        "shift-jis-2004"@,
        "gb2312"@,
        "utf-8"@,
        "gb18030"@,
        "shift-jisx0213"@,
    ]
}

/// `text` without its U+FFFD replacement characters.
pub open spec fn without_replacement(text: Seq<char>) -> Seq<char> {
    text.filter(|c: char| c != '\u{FFFD}')
}

/// The text of a chart file: a strict priority decode with the forced
/// encoding (if any) before the defaults; when that fails, the lossy UTF-8
/// text with its replacement characters removed.
pub open spec fn spec_bms_file_str(bytes: Seq<u8>, encoding: Option<Seq<char>>) -> Seq<char> {
    let labels = match encoding {
        Some(e) => seq![e] + spec_default_encodings(),
        None => spec_default_encodings(),
    };
    match decode_from(spec_codecs(labels), bytes, 0, ErrorMode::Strict) {
        Some(t) => t,
        None => without_replacement(spec_utf8_lossy(bytes)),
    }
}

/// Get BMS file string with optional forced encoding.
pub fn get_bms_file_str(file_bytes: &[u8], encoding: Option<&str>) -> (r: String)
    requires
        file_bytes@.len() <= usize::MAX / 4,
    ensures
        r@ == spec_bms_file_str(
            file_bytes@,
            match encoding {
                Some(e) => Some(e@),
                None => None,
            },
        ),
{
    let mut list: Vec<&str> = Vec::new();
    match encoding {
        Some(enc) => list.push(enc),
        None => {},
    }
    list.push("shift-jis");
    list.push("shift-jis-2004");
    list.push("gb2312");
    list.push("utf-8");
    list.push("gb18030");
    list.push("shift-jisx0213");
    let ghost labels = match encoding {
        Some(e) => seq![e@] + spec_default_encodings(),
        None => spec_default_encodings(),
    };
    assert(list@.map_values(|s: &str| s@) =~= labels);
    let decoder = PriorityDecoder::new(list.as_slice());
    match decoder.decode(file_bytes, "strict") {
        Ok(s) => s,
        Err(_) => {
            let lossy = utf8_decode_lossy(file_bytes);
            remove_replacement_chars(lossy.as_str())
        },
    }
}

/// `text` without U+FFFD characters.
fn remove_replacement_chars(text: &str) -> (r: String)
    ensures
        r@ == without_replacement(text@),
{
    let cs = str_chars(text);
    let mut out: Vec<char> = Vec::new();
    let mut i: usize = 0;
    while i < cs.len()
        invariant
            i <= cs.len(),
            cs@ == text@,
            out@ == without_replacement(cs@.subrange(0, i as int)),
        decreases cs.len() - i,
    {
        let ghost prev = cs@.subrange(0, i as int);
        if cs[i] != '\u{FFFD}' {
            out.push(cs[i]);
        }
        i = i + 1;
        proof {
            let next = cs@.subrange(0, i as int);
            assert(next.drop_last() =~= prev);
            reveal_with_fuel(Seq::<_>::filter, 1);
        }
    }
    assert(cs@.subrange(0, cs@.len() as int) =~= cs@);
    string_from_chars(&out)
}

/// Copies a byte slice into a vector.
pub fn bytes_to_vec(b: &[u8]) -> (r: Vec<u8>)
    ensures
        r@ == b@,
{
    bytes_range(b, 0, b.len())
}

/// `b[from..to]` as a vector.
pub fn bytes_range(b: &[u8], from: usize, to: usize) -> (r: Vec<u8>)
    requires
        from <= to <= b.len(),
    ensures
        r@ == b@.subrange(from as int, to as int),
{
    let mut r: Vec<u8> = Vec::new();
    let mut i: usize = from;
    while i < to
        invariant
            from <= i <= to <= b.len(),
            r@ == b@.subrange(from as int, i as int),
        decreases to - i,
    {
        r.push(b[i]);
        i = i + 1;
        assert(r@ =~= b@.subrange(from as int, i as int));
    }
    r
}

} // verus!
