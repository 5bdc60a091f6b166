//! The models the application knows how to fetch.
//!
//! Digests are recorded on first download rather than hard-coded: a wrong digest baked
//! into the binary would make a model impossible to install.

use vstd::prelude::*;

use crate::text::{occurs_in, same_text, starts_with};

verus! {

#[derive(Debug, Clone, Copy, PartialEq, Eq, Structural)]
pub enum ModelKind {
    /// Voice activity detection.
    Vad,
    /// Speech recognition.
    Speech,
    /// Sentence embeddings for semantic event matching.
    Embedding,
    /// A tokenizer or other file a model needs alongside its weights.
    Support,
}

#[derive(Debug, Clone, Copy)]
pub struct ModelSpec {
    /// Stable identifier, also used as the settings value and the file name stem.
    pub id: &'static str,
    pub display_name: &'static str,
    pub kind: ModelKind,
    pub url: &'static str,
    /// File name on disk, inside the model directory.
    pub file_name: &'static str,
    /// Approximate download size, for the UI. The real size is whatever arrives.
    pub approx_bytes: u64,
    pub license: &'static str,
    pub languages: &'static str,
    pub notes: &'static str,
}

/// The identifiers of the catalog, in order.
pub open spec fn catalog_ids() -> Seq<Seq<char>> {
    seq![
        "silero-vad-16k"@,
        "large-v3-turbo-q5_0"@,
        "small-q5_1"@,
        "multilingual-e5-small-int8"@,
        "multilingual-e5-small-tokenizer"@,
    ]
}

/// The identifiers of a list of models.
pub open spec fn ids_of(specs: Seq<ModelSpec>) -> Seq<Seq<char>> {
    specs.map_values(|s: ModelSpec| s.id@)
}

/// A model the app can safely fetch: over https, into a bare file name that cannot
/// escape the model folder, with a size and a licence to show.
pub open spec fn well_formed(spec: ModelSpec) -> bool {
    &&& starts_with(spec.url@, "https://"@)
    &&& !spec.file_name@.contains('/')
    &&& !occurs_in(spec.file_name@, ".."@)
    &&& spec.approx_bytes > 0
    &&& spec.license@.len() > 0
}

/// Everything the app can download, entry by entry.
pub open spec fn model_catalog() -> Seq<ModelSpec> {
    seq![
        ModelSpec {
            id: "silero-vad-16k",
            display_name: "Silero VAD v6 (16 kHz)",
            kind: ModelKind::Vad,
            url: "https://raw.githubusercontent.com/snakers4/silero-vad/v6.2.1/src/silero_vad/data/silero_vad_16k_op15.onnx",
            file_name: "silero_vad_16k_op15.onnx",
            approx_bytes: 1_289_626,
            license: "MIT",
            languages: "language independent",
            notes: "Required for listening. Tiny, and the pipeline cannot run without it.",
        },
        ModelSpec {
            id: "large-v3-turbo-q5_0",
            display_name: "Whisper large-v3-turbo (q5_0)",
            kind: ModelKind::Speech,
            url: "https://huggingface.co/ggerganov/whisper.cpp/resolve/main/ggml-large-v3-turbo-q5_0.bin",
            file_name: "ggml-large-v3-turbo-q5_0.bin",
            approx_bytes: 574_041_600,
            license: "MIT",
            languages: "multilingual, including Ukrainian and English",
            notes: "Recommended. Best Ukrainian quality per millisecond on Apple Silicon.",
        },
        ModelSpec {
            id: "small-q5_1",
            display_name: "Whisper small (q5_1)",
            kind: ModelKind::Speech,
            url: "https://huggingface.co/ggerganov/whisper.cpp/resolve/main/ggml-small-q5_1.bin",
            file_name: "ggml-small-q5_1.bin",
            approx_bytes: 189_792_000,
            license: "MIT",
            languages: "multilingual",
            notes: "Faster and much smaller, but noticeably weaker on free-form Ukrainian.",
        },
        ModelSpec {
            id: "multilingual-e5-small-int8",
            display_name: "multilingual-e5-small (int8)",
            kind: ModelKind::Embedding,
            url: "https://huggingface.co/intfloat/multilingual-e5-small/resolve/main/onnx/model_qint8_avx512_vnni.onnx",
            file_name: "multilingual-e5-small-int8.onnx",
            approx_bytes: 118_384_000,
            license: "MIT",
            languages: "100 languages",
            notes: "Semantic event matching. Cross-lingual: Ukrainian speech can match English phrases.",
        },
        ModelSpec {
            id: "multilingual-e5-small-tokenizer",
            display_name: "multilingual-e5-small tokenizer",
            kind: ModelKind::Support,
            url: "https://huggingface.co/intfloat/multilingual-e5-small/resolve/main/tokenizer.json",
            file_name: "multilingual-e5-small-tokenizer.json",
            approx_bytes: 17_098_000,
            license: "MIT",
            languages: "100 languages",
            notes: "Required alongside the embedding model.",
        },
    ]
}

/// Everything the app can download.
pub fn catalog() -> (specs: Vec<ModelSpec>)
    ensures
        specs@ == model_catalog(),
        ids_of(specs@) == catalog_ids(),
        forall|i: int| 0 <= i < specs@.len() ==> well_formed(#[trigger] specs@[i]),
        forall|i: int, j: int|
            0 <= i < j < specs@.len() ==> #[trigger] specs@[i].file_name@
                != #[trigger] specs@[j].file_name@,
        forall|i: int| 0 <= i < specs@.len() ==> (#[trigger] specs@[i].kind == ModelKind::Vad <==> i == 0),
        specs@[0].approx_bytes < 5_000_000,
{
    let specs = vec![
        ModelSpec {
            id: "silero-vad-16k",
            display_name: "Silero VAD v6 (16 kHz)",
            kind: ModelKind::Vad,
            url: "https://raw.githubusercontent.com/snakers4/silero-vad/v6.2.1/src/silero_vad/data/silero_vad_16k_op15.onnx",
            file_name: "silero_vad_16k_op15.onnx",
            approx_bytes: 1_289_626,
            license: "MIT",
            languages: "language independent",
            notes: "Required for listening. Tiny, and the pipeline cannot run without it.",
        },
        ModelSpec {
            id: "large-v3-turbo-q5_0",
            display_name: "Whisper large-v3-turbo (q5_0)",
            kind: ModelKind::Speech,
            url: "https://huggingface.co/ggerganov/whisper.cpp/resolve/main/ggml-large-v3-turbo-q5_0.bin",
            file_name: "ggml-large-v3-turbo-q5_0.bin",
            approx_bytes: 574_041_600,
            license: "MIT",
            languages: "multilingual, including Ukrainian and English",
            notes: "Recommended. Best Ukrainian quality per millisecond on Apple Silicon.",
        },
        ModelSpec {
            id: "small-q5_1",
            display_name: "Whisper small (q5_1)",
            kind: ModelKind::Speech,
            url: "https://huggingface.co/ggerganov/whisper.cpp/resolve/main/ggml-small-q5_1.bin",
            file_name: "ggml-small-q5_1.bin",
            approx_bytes: 189_792_000,
            license: "MIT",
            languages: "multilingual",
            notes: "Faster and much smaller, but noticeably weaker on free-form Ukrainian.",
        },
        ModelSpec {
            id: "multilingual-e5-small-int8",
            display_name: "multilingual-e5-small (int8)",
            kind: ModelKind::Embedding,
            url: "https://huggingface.co/intfloat/multilingual-e5-small/resolve/main/onnx/model_qint8_avx512_vnni.onnx",
            file_name: "multilingual-e5-small-int8.onnx",
            approx_bytes: 118_384_000,
            license: "MIT",
            languages: "100 languages",
            notes: "Semantic event matching. Cross-lingual: Ukrainian speech can match English phrases.",
        },
        ModelSpec {
            id: "multilingual-e5-small-tokenizer",
            display_name: "multilingual-e5-small tokenizer",
            kind: ModelKind::Support,
            url: "https://huggingface.co/intfloat/multilingual-e5-small/resolve/main/tokenizer.json",
            file_name: "multilingual-e5-small-tokenizer.json",
            approx_bytes: 17_098_000,
            license: "MIT",
            languages: "100 languages",
            notes: "Required alongside the embedding model.",
        },
    ];
    proof {
        reveal_strlit("https://");
        reveal_strlit("..");
        reveal_strlit("MIT");
        reveal_strlit("https://raw.githubusercontent.com/snakers4/silero-vad/v6.2.1/src/silero_vad/data/silero_vad_16k_op15.onnx");
        reveal_strlit("https://huggingface.co/ggerganov/whisper.cpp/resolve/main/ggml-large-v3-turbo-q5_0.bin");
        reveal_strlit("https://huggingface.co/ggerganov/whisper.cpp/resolve/main/ggml-small-q5_1.bin");
        reveal_strlit("https://huggingface.co/intfloat/multilingual-e5-small/resolve/main/onnx/model_qint8_avx512_vnni.onnx");
        reveal_strlit("https://huggingface.co/intfloat/multilingual-e5-small/resolve/main/tokenizer.json");
        reveal_strlit("silero_vad_16k_op15.onnx");
        reveal_strlit("ggml-large-v3-turbo-q5_0.bin");
        reveal_strlit("ggml-small-q5_1.bin");
        reveal_strlit("multilingual-e5-small-int8.onnx");
        reveal_strlit("multilingual-e5-small-tokenizer.json");
        assert(specs@ =~= model_catalog());
        assert(ids_of(specs@) =~= catalog_ids());
        assert forall|i: int| 0 <= i < specs@.len() implies well_formed(#[trigger] specs@[i]) by {
            let s = specs@[i];
            assert(s.url@.subrange(0, 8) =~= "https://"@);
            assert forall|k: int| 0 <= k < s.file_name@.len() implies s.file_name@[k] != '/' by {}
            assert forall|k: int| 0 <= k && k + 2 <= s.file_name@.len() implies #[trigger] s.file_name@.subrange(k, k + 2) != ".."@ by {
                if s.file_name@.subrange(k, k + 2) == ".."@ {
                    assert(s.file_name@.subrange(k, k + 2)[0] == '.');
                    assert(s.file_name@.subrange(k, k + 2)[1] == '.');
                }
            }
        }
        assert forall|i: int, j: int| 0 <= i < j < specs@.len() implies #[trigger] specs@[i].file_name@
            != #[trigger] specs@[j].file_name@ by {
            assert(specs@[i].file_name@.len() != specs@[j].file_name@.len()
                || specs@[i].file_name@[0] != specs@[j].file_name@[0]
                || specs@[i].file_name@[15] != specs@[j].file_name@[15]);
        }
    }
    specs
}

/// The first model of a list with this identifier.
pub open spec fn first_with_id(specs: Seq<ModelSpec>, id: Seq<char>, from: int) -> Option<int>
    decreases specs.len() - from,
{
    if from < 0 || from >= specs.len() {
        None
    } else if specs[from].id@ == id {
        Some(from)
    } else {
        first_with_id(specs, id, from + 1)
    }
}

/// The catalog entry with this identifier, if there is one: the first that has it.
pub fn find(id: &str) -> (found: Option<ModelSpec>)
    ensures
        found is Some <==> catalog_ids().contains(id@),
        found matches Some(spec) ==> spec.id@ == id@ && well_formed(spec),
        match first_with_id(model_catalog(), id@, 0) {
            Some(k) => found == Some(model_catalog()[k]),
            None => found is None,
        },
{
    let specs = catalog();
    let mut i: usize = 0;
    while i < specs.len()
        invariant
            i <= specs@.len(),
            specs@ == model_catalog(),
            ids_of(specs@) == catalog_ids(),
            forall|k: int| 0 <= k < specs@.len() ==> well_formed(#[trigger] specs@[k]),
            forall|k: int| 0 <= k < i ==> specs@[k].id@ != id@,
            first_with_id(specs@, id@, 0) == first_with_id(specs@, id@, i as int),
        decreases specs@.len() - i,
    {
        if same_text(specs[i].id, id) {
            assert(ids_of(specs@)[i as int] == id@);
            return Some(specs[i]);
        }
        i = i + 1;
    }
    assert forall|k: int| 0 <= k < catalog_ids().len() implies catalog_ids()[k] != id@ by {
        assert(ids_of(specs@)[k] == specs@[k].id@);
    }
    None
}

} // verus!
