//! The E5 prompt convention, and the padded token batch the model is fed.

use vstd::prelude::*;

use tokenizers::Tokenizer;

use crate::text::chars_of;

verus! {

/// Which side of the E5 prompt convention a text is on.
#[derive(Debug, Clone, Copy, PartialEq, Eq, Structural)]
pub enum Role {
    /// Live narration.
    Query,
    /// A stored example phrase.
    Passage,
}

impl Role {
    /// The prefix E5 was trained with. Without it similarity still "works", just worse.
    pub fn prefix(self) -> (prefix: &'static str)
        ensures
            prefix@ == match self {
                Role::Query => "query: "@,
                Role::Passage => "passage: "@,
            },
    {
        match self {
            Role::Query => "query: ",
            Role::Passage => "passage: ",
        }
    }

    /// A text with this role's prefix in front of it.
    pub fn prefixed(self, text: &str) -> (prompt: String)
        ensures
            prompt@ == self.prefix_view() + text@,
    {
        let mut out = chars_of(self.prefix());
        let rest = chars_of(text);
        let ghost head = out@;
        let mut i: usize = 0;
        while i < rest.len()
            invariant
                i <= rest@.len(),
                out@ == head + rest@.take(i as int),
            decreases rest@.len() - i,
        {
            out.push(rest[i]);
            i = i + 1;
            assert(out@ =~= head + rest@.take(i as int));
        }
        assert(rest@.take(rest@.len() as int) =~= rest@);
        crate::text::string_of(out.as_slice())
    }

    pub open spec fn prefix_view(self) -> Seq<char> {
        match self {
            Role::Query => "query: "@,
            Role::Passage => "passage: "@,
        }
    }
}

/// How the embedding model runs.
pub struct EmbedderConfig {
    pub threads: u16,
}

impl Default for EmbedderConfig {
    fn default() -> (config: Self)
        ensures
            config.threads == 4,
    {
        EmbedderConfig { threads: 4 }
    }
}


/// Longest input in tokens. Narration segments are short; anything longer is a runaway
/// transcript, and truncating costs less than the time to embed it.
pub const MAX_TOKENS: usize = 128;

/// A batch of token sequences padded to one length: the model's three inputs, row after
/// row.
pub struct PaddedBatch {
    pub batch: usize,
    pub length: usize,
    pub input_ids: Vec<i64>,
    pub attention_mask: Vec<i64>,
    pub token_type_ids: Vec<i64>,
}

/// The longest of some sequences, each cut to `MAX_TOKENS`, and at least one.
pub open spec fn padded_length(rows: Seq<Seq<u32>>) -> int
    decreases rows.len(),
{
    if rows.len() == 0 {
        1
    } else {
        let rest = padded_length(rows.drop_last());
        let own = if rows.last().len() < MAX_TOKENS {
            rows.last().len() as int
        } else {
            MAX_TOKENS as int
        };
        if own > rest {
            own
        } else {
            rest
        }
    }
}

/// One row of a padded matrix: the first `length` values of `values` (as far as `row`
/// reaches), then zeros.
pub open spec fn padded_row(values: Seq<u32>, reach: int, length: int) -> Seq<i64> {
    Seq::new(length as nat, |c: int| if c < reach { values[c] as i64 } else { 0 })
}

/// The rows of a padded matrix laid end to end. `values` supplies each row's numbers,
/// `rows` how far each row reaches.
pub open spec fn flattened(values: Seq<Seq<u32>>, rows: Seq<Seq<u32>>, length: int, count: int) -> Seq<
    i64,
>
    decreases count,
{
    if count <= 0 {
        Seq::empty()
    } else {
        flattened(values, rows, length, count - 1) + padded_row(
            values[count - 1],
            rows[count - 1].len() as int,
            length,
        )
    }
}

proof fn lemma_padded_length_bounds(rows: Seq<Seq<u32>>)
    ensures
        1 <= padded_length(rows) <= MAX_TOKENS,
        forall|r: int|
            0 <= r < rows.len() ==> (if rows[r].len() < MAX_TOKENS {
                rows[r].len() as int
            } else {
                MAX_TOKENS as int
            }) <= padded_length(rows),
    decreases rows.len(),
{
    if rows.len() > 0 {
        lemma_padded_length_bounds(rows.drop_last());
        assert forall|r: int| 0 <= r < rows.len() implies (if rows[r].len() < MAX_TOKENS {
            rows[r].len() as int
        } else {
            MAX_TOKENS as int
        }) <= padded_length(rows) by {
            if r < rows.len() - 1 {
                assert(rows[r] == rows.drop_last()[r]);
            }
        }
    }
}

pub open spec fn nested(rows: Seq<Vec<u32>>) -> Seq<Seq<u32>> {
    rows.map_values(|row: Vec<u32>| row@)
}

fn padded(values: &Vec<Vec<u32>>, rows: &Vec<Vec<u32>>, length: usize) -> (flat: Vec<i64>)
    requires
        values@.len() == rows@.len(),
        forall|r: int|
            0 <= r < rows@.len() ==> #[trigger] values@[r]@.len() >= if rows@[r]@.len() < length {
                rows@[r]@.len() as int
            } else {
                length as int
            },
    ensures
        flat@ == flattened(nested(values@), nested(rows@), length as int, rows@.len() as int),
{
    let mut flat: Vec<i64> = Vec::new();
    let mut r: usize = 0;
    while r < rows.len()
        invariant
            r <= rows@.len(),
            values@.len() == rows@.len(),
            forall|k: int|
                0 <= k < rows@.len() ==> #[trigger] values@[k]@.len() >= if rows@[k]@.len() < length {
                    rows@[k]@.len() as int
                } else {
                    length as int
                },
            flat@ == flattened(nested(values@), nested(rows@), length as int, r as int),
        decreases rows@.len() - r,
    {
        let reach = rows[r].len();
        let ghost head = flat@;
        let ghost row = padded_row(values@[r as int]@, reach as int, length as int);
        let mut c: usize = 0;
        while c < length
            invariant
                c <= length,
                r < rows@.len(),
                values@.len() == rows@.len(),
                reach == rows@[r as int]@.len(),
                values@[r as int]@.len() >= if reach < length {
                    reach as int
                } else {
                    length as int
                },
                row == padded_row(values@[r as int]@, reach as int, length as int),
                flat@ == head + row.take(c as int),
            decreases length - c,
        {
            let cell: i64 = if c < reach {
                values[r][c] as i64
            } else {
                0
            };
            flat.push(cell);
            c = c + 1;
            assert(flat@ =~= head + row.take(c as int));
        }
        assert(row.take(length as int) =~= row);
        assert(nested(values@)[r as int] == values@[r as int]@);
        assert(nested(rows@)[r as int] == rows@[r as int]@);
        r = r + 1;
    }
    flat
}

/// Lay a batch of tokenized texts out as the model's inputs: every row padded with zeros
/// to the longest sequence (cut to `MAX_TOKENS`), the attention mask beside the ids,
/// and token types all zero.
pub fn pad_batch(ids: &Vec<Vec<u32>>, masks: &Vec<Vec<u32>>) -> (padded_batch: PaddedBatch)
    requires
        masks@.len() == ids@.len(),
        forall|r: int| 0 <= r < ids@.len() ==> #[trigger] masks@[r]@.len() >= ids@[r]@.len(),
        ids@.len() * MAX_TOKENS <= usize::MAX,
    ensures
        padded_batch.batch == ids@.len(),
        padded_batch.length == padded_length(nested(ids@)),
        padded_batch.input_ids@ == flattened(
            nested(ids@),
            nested(ids@),
            padded_batch.length as int,
            ids@.len() as int,
        ),
        padded_batch.attention_mask@ == flattened(
            nested(masks@),
            nested(ids@),
            padded_batch.length as int,
            ids@.len() as int,
        ),
        padded_batch.token_type_ids@.len() == ids@.len() * padded_batch.length,
        forall|i: int| 0 <= i < padded_batch.token_type_ids@.len() ==> padded_batch.token_type_ids@[i] == 0,
{
    let mut length: usize = 1;
    let mut r: usize = 0;
    while r < ids.len()
        invariant
            r <= ids@.len(),
            length == padded_length(nested(ids@).take(r as int)),
        decreases ids@.len() - r,
    {
        proof {
            assert(nested(ids@).take(r + 1).drop_last() =~= nested(ids@).take(r as int));
        }
        let own = if ids[r].len() < MAX_TOKENS {
            ids[r].len()
        } else {
            MAX_TOKENS
        };
        if own > length {
            length = own;
        }
        r = r + 1;
    }
    assert(nested(ids@).take(ids@.len() as int) =~= nested(ids@));
    proof {
        lemma_padded_length_bounds(nested(ids@));
        assert forall|k: int| 0 <= k < ids@.len() implies #[trigger] masks@[k]@.len() >= if ids@[k]@.len() < length {
            ids@[k]@.len() as int
        } else {
            length as int
        } by {}
        assert forall|k: int| 0 <= k < ids@.len() implies #[trigger] ids@[k]@.len() >= if ids@[k]@.len() < length {
            ids@[k]@.len() as int
        } else {
            length as int
        } by {}
    }
    let input_ids = padded(ids, ids, length);
    let attention_mask = padded(masks, ids, length);
    assert(ids@.len() * length <= ids@.len() * MAX_TOKENS) by (nonlinear_arith)
        requires
            length <= MAX_TOKENS,
    ;
    let total = ids.len() * length;
    let mut token_type_ids: Vec<i64> = Vec::new();
    let mut i: usize = 0;
    while i < total
        invariant
            i <= total,
            token_type_ids@.len() == i,
            forall|k: int| 0 <= k < i ==> token_type_ids@[k] == 0,
        decreases total - i,
    {
        token_type_ids.push(0);
        i = i + 1;
    }
    PaddedBatch { batch: ids.len(), length, input_ids, attention_mask, token_type_ids }
}

#[verifier::external_type_specification]
#[verifier::external_body]
pub struct ExTokenizer(tokenizers::Tokenizer);

/// The token ids and attention masks a tokenizer gives a batch of texts, special tokens
/// added, or `None` where it fails.
pub uninterp spec fn tokenized(tokenizer: Tokenizer, texts: Seq<Seq<char>>) -> Option<
    (Seq<Seq<u32>>, Seq<Seq<u32>>),
>;

/// Each text's token ids and attention mask, special tokens added.
///
/// Calls `tokenizers::Tokenizer::encode_batch`, which encodes every input and collects
/// the encodings in order: one per text. Which ids come out depends on the tokenizer's
/// vocabulary and rules, and is named, not described; nothing is said of how long a
/// mask is beside its ids.
#[verifier::external_body]
fn encode_batch(tokenizer: &Tokenizer, texts: Vec<String>) -> (encoded: Result<
    (Vec<Vec<u32>>, Vec<Vec<u32>>),
    String,
>)
    ensures
        match encoded {
            Ok((ids, masks)) => tokenized(*tokenizer, texts@.map_values(|t: String| t@)) == Some(
                (nested(ids@), nested(masks@)),
            ),
            Err(_) => tokenized(*tokenizer, texts@.map_values(|t: String| t@)) is None,
        },
        encoded matches Ok((ids, masks)) ==> ids@.len() == texts@.len() && masks@.len()
            == texts@.len(),
{
    let encodings = tokenizer.encode_batch(texts, true).map_err(|e| e.to_string())?;
    let ids = encodings.iter().map(|e| e.get_ids().to_vec()).collect();
    let masks = encodings.iter().map(|e| e.get_attention_mask().to_vec()).collect();
    Ok((ids, masks))
}

/// What the model is fed for each text: the role's prefix, then the text.
pub open spec fn prompts_for(texts: Seq<&str>, role: Role) -> Seq<Seq<char>> {
    texts.map_values(|t: &str| role.prefix_view() + t@)
}

/// Whether every attention mask covers its ids.
pub open spec fn masks_cover(ids: Seq<Seq<u32>>, masks: Seq<Seq<u32>>) -> bool {
    forall|r: int| 0 <= r < ids.len() ==> #[trigger] masks[r].len() >= ids[r].len()
}

/// What `tokenize_batch` gives for a tokenization `ids` with attention masks `masks`.
pub open spec fn laid_out(b: PaddedBatch, ids: Seq<Seq<u32>>, masks: Seq<Seq<u32>>) -> bool {
    &&& b.batch == ids.len()
    &&& b.length == padded_length(ids)
    &&& b.input_ids@ == flattened(ids, ids, b.length as int, ids.len() as int)
    &&& b.attention_mask@ == flattened(masks, ids, b.length as int, ids.len() as int)
    &&& b.token_type_ids@.len() == ids.len() * b.length
    &&& forall|i: int| 0 <= i < b.token_type_ids@.len() ==> b.token_type_ids@[i] == 0
}

/// Tokenize texts, each behind its role's prefix, and lay them out as the model's
/// inputs. No texts make an empty batch, without asking the tokenizer; a tokenizer
/// failure, or an attention mask shorter than its ids, is an error.
pub fn tokenize_batch(tokenizer: &Tokenizer, texts: &[&str], role: Role) -> (batch: Result<
    PaddedBatch,
    String,
>)
    requires
        texts@.len() * MAX_TOKENS <= usize::MAX,
    ensures
        texts@.len() == 0 ==> (batch matches Ok(b) && b.batch == 0 && laid_out(
            b,
            Seq::empty(),
            Seq::empty(),
        )),
        texts@.len() > 0 ==> match tokenized(*tokenizer, prompts_for(texts@, role)) {
            None => batch is Err,
            Some((ids, masks)) => if ids.len() == texts@.len() && masks.len() == ids.len()
                && masks_cover(ids, masks) {
                batch matches Ok(b) && laid_out(b, ids, masks)
            } else {
                batch matches Err(e) && e@ == short_mask_error()
            },
        },
{
    if texts.len() == 0 {
        let none: Vec<Vec<u32>> = Vec::new();
        let padded = pad_batch(&none, &none);
        assert(nested(none@) =~= Seq::<Seq<u32>>::empty());
        return Ok(padded);
    }
    let mut prompts: Vec<String> = Vec::new();
    let mut i: usize = 0;
    while i < texts.len()
        invariant
            i <= texts@.len(),
            prompts@.map_values(|t: String| t@) == prompts_for(texts@, role).take(i as int),
        decreases texts@.len() - i,
    {
        let prompt = role.prefixed(texts[i]);
        assert(prompt@ == prompts_for(texts@, role)[i as int]);
        let ghost before = prompts@;
        prompts.push(prompt);
        assert(prompts@ == before.push(prompt));
        assert(prompts@.map_values(|t: String| t@) =~= before.map_values(|t: String| t@).push(
            prompt@,
        ));
        assert(prompts_for(texts@, role).take(i + 1) =~= prompts_for(texts@, role).take(
            i as int,
        ).push(prompt@));
        i = i + 1;
    }
    assert(prompts_for(texts@, role).take(texts@.len() as int) =~= prompts_for(texts@, role));
    let (ids, masks) = match encode_batch(tokenizer, prompts) {
        Ok(encoded) => encoded,
        Err(reason) => {
            return Err(reason);
        },
    };
    lay_out(&ids, &masks)
}

/// Why a tokenization cannot be laid out: an attention mask shorter than its ids.
pub open spec fn short_mask_error() -> Seq<char> {
    "the tokenizer gave an attention mask shorter than its ids"@
}

/// Lay a tokenizer's ids and attention masks out as the model's inputs. Every mask has
/// to cover its ids; where one does not, the batch is refused.
pub fn lay_out(ids: &Vec<Vec<u32>>, masks: &Vec<Vec<u32>>) -> (batch: Result<PaddedBatch, String>)
    requires
        masks@.len() == ids@.len(),
        ids@.len() * MAX_TOKENS <= usize::MAX,
    ensures
        masks_cover(nested(ids@), nested(masks@)) ==> (batch matches Ok(b) && laid_out(
            b,
            nested(ids@),
            nested(masks@),
        )),
        !masks_cover(nested(ids@), nested(masks@)) ==> (batch matches Err(e) && e@
            == short_mask_error()),
{
    let mut r: usize = 0;
    while r < ids.len()
        invariant
            r <= ids@.len(),
            masks@.len() == ids@.len(),
            forall|k: int| 0 <= k < r ==> #[trigger] masks@[k]@.len() >= ids@[k]@.len(),
        decreases ids@.len() - r,
    {
        if masks[r].len() < ids[r].len() {
            assert(nested(masks@)[r as int].len() < nested(ids@)[r as int].len());
            return Err("the tokenizer gave an attention mask shorter than its ids".to_string());
        }
        r = r + 1;
    }
    assert forall|k: int| 0 <= k < nested(ids@).len() implies #[trigger] nested(masks@)[k].len()
        >= nested(ids@)[k].len() by {
        assert(masks@[k]@.len() >= ids@[k]@.len());
    }
    let padded = pad_batch(ids, masks);
    assert(laid_out(padded, nested(ids@), nested(masks@)));
    let batch: Result<PaddedBatch, String> = Ok(padded);
    assert(batch matches Ok(b) ==> laid_out(b, nested(ids@), nested(masks@)));
    batch
}

} // verus!
