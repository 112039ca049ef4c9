//! Fixed settings: the registry of model aliases.

use vstd::prelude::*;

verus! {

/// The alias registry: each alias with the URL it downloads.
pub open spec fn registry() -> Seq<(Seq<char>, Seq<char>)> {
    seq![
        ("qwen3-0.6b"@, "https://huggingface.co/Qwen/Qwen3-4B-GGUF/resolve/main/Qwen3-4B-Q4_K_M.gguf?download=true"@),
        ("qwen3-1.7b"@, "https://huggingface.co/Qwen/Qwen3-8B-GGUF/resolve/main/Qwen3-8B-Q4_K_M.gguf?download=true"@),
        ("qwen3-4b"@, "https://huggingface.co/Qwen/Qwen3-4B-GGUF/resolve/main/Qwen3-4B-Q4_K_M.gguf?download=true"@),
        ("qwen3-8b"@, "https://huggingface.co/Qwen/Qwen3-8B-GGUF/resolve/main/Qwen3-8B-Q4_K_M.gguf?download=true"@),
        ("qwen3-16b"@, "https://huggingface.co/Qwen/Qwen3-16B-GGUF/resolve/main/Qwen3-16B-Q4_K_M.gguf?download=true"@),
        ("qwen3-32b"@, "https://huggingface.co/Qwen/Qwen3-32B-GGUF/resolve/main/Qwen3-32B-Q4_K_M.gguf?download=true"@),
        ("qwen3-30b-moe"@, "https://huggingface.co/Qwen/Qwen3-16B-GGUF/resolve/main/Qwen3-16B-Q4_K_M.gguf?download=true"@),
        ("gemma3-27b"@, "https://huggingface.co/unsloth/gemma-3-27b-it-GGUF/resolve/main/gemma-3-27b-it-Q4_0.gguf?download=true"@),
    ]
}

pub open spec fn pair_views(v: Seq<(&'static str, &'static str)>) -> Seq<(Seq<char>, Seq<char>)> {
    v.map_values(|p: (&'static str, &'static str)| (p.0@, p.1@))
}

/// The alias registry, as `(alias, url)` pairs.
pub fn get_model_registry() -> (r: Vec<(&'static str, &'static str)>)
    ensures
        pair_views(r@) == registry(),
{
    let r = vec![
        ("qwen3-0.6b", "https://huggingface.co/Qwen/Qwen3-4B-GGUF/resolve/main/Qwen3-4B-Q4_K_M.gguf?download=true"),
        ("qwen3-1.7b", "https://huggingface.co/Qwen/Qwen3-8B-GGUF/resolve/main/Qwen3-8B-Q4_K_M.gguf?download=true"),
        ("qwen3-4b", "https://huggingface.co/Qwen/Qwen3-4B-GGUF/resolve/main/Qwen3-4B-Q4_K_M.gguf?download=true"),
        ("qwen3-8b", "https://huggingface.co/Qwen/Qwen3-8B-GGUF/resolve/main/Qwen3-8B-Q4_K_M.gguf?download=true"),
        ("qwen3-16b", "https://huggingface.co/Qwen/Qwen3-16B-GGUF/resolve/main/Qwen3-16B-Q4_K_M.gguf?download=true"),
        ("qwen3-32b", "https://huggingface.co/Qwen/Qwen3-32B-GGUF/resolve/main/Qwen3-32B-Q4_K_M.gguf?download=true"),
        ("qwen3-30b-moe", "https://huggingface.co/Qwen/Qwen3-16B-GGUF/resolve/main/Qwen3-16B-Q4_K_M.gguf?download=true"),
        ("gemma3-27b", "https://huggingface.co/unsloth/gemma-3-27b-it-GGUF/resolve/main/gemma-3-27b-it-Q4_0.gguf?download=true"),
    ];
    assert(pair_views(r@) =~= registry());
    r
}

/// The URL registered under an alias.
pub open spec fn registered_url(alias: Seq<char>) -> Option<Seq<char>> {
    if exists|k: int| 0 <= k < registry().len() && (#[trigger] registry()[k]).0 == alias {
        let k = choose|k: int| 0 <= k < registry().len() && (#[trigger] registry()[k]).0 == alias;
        Some(registry()[k].1)
    } else {
        None
    }
}

fn str_eq(a: &str, b: &str) -> (r: bool)
    ensures
        r == (a@ == b@),
{
    let x = crate::text::to_chars(a);
    let y = crate::text::to_chars(b);
    crate::text::chars_eq(x.as_slice(), y.as_slice())
}

/// Looks an alias up in the registry.
pub fn lookup_model(alias: &str) -> (r: Option<&'static str>)
    ensures
        r is Some <==> registered_url(alias@) is Some,
        r matches Some(u) ==> exists|k: int|
            0 <= k < registry().len() && (#[trigger] registry()[k]).0 == alias@ && registry()[k].1
                == u@,
{
    let reg = get_model_registry();
    let mut k: usize = 0;
    while k < reg.len()
        invariant
            k <= reg@.len(),
            pair_views(reg@) == registry(),
            forall|j: int| 0 <= j < k ==> (#[trigger] registry()[j]).0 != alias@,
        decreases reg@.len() - k,
    {
        assert(pair_views(reg@)[k as int] == (reg@[k as int].0@, reg@[k as int].1@));
        if str_eq(reg[k].0, alias) {
            assert(registry()[k as int].0 == alias@);
            return Some(reg[k].1);
        }
        k = k + 1;
    }
    None
}

} // verus!
