//! The optimization suggestions drawn from an analysis.

use vstd::prelude::*;
use crate::analyzer::WasmAnalysis;
use crate::size::{check_limits, estimated_compressed_size, MAX_COMPRESSED_WASM};

verus! {

/// One optimization suggestion.
#[derive(Debug)]
pub enum Hint {
    /// A custom section (debug info, names) large enough to strip.
    StripCustomSection { name: String, size: usize },
    /// Data segments large enough to consider lazy-loading constants.
    LazyLoadData { size: usize },
    /// So many functions that small helpers should be inlined.
    InlineHelpers { functions: usize },
    /// So many imports that unused ones should be looked for.
    ReviewImports { imports: usize },
    /// The binary is over the compressed size limit.
    OverCompressedLimit,
}

/// The hints for the custom sections over 1 KB, in order.
pub open spec fn custom_section_hints(sections: Seq<(String, usize)>) -> Seq<Hint>
    decreases sections.len(),
{
    if sections.len() == 0 {
        seq![]
    } else {
        let prev = custom_section_hints(sections.drop_last());
        let (name, size) = sections.last();
        if size > 1024 {
            prev.push(Hint::StripCustomSection { name, size })
        } else {
            prev
        }
    }
}

/// `h` if `cond` holds, nothing otherwise.
pub open spec fn hint_if(cond: bool, h: Hint) -> Seq<Hint> {
    if cond { seq![h] } else { seq![] }
}

/// The suggestions for an analysis, in the order they are given: large
/// custom sections, large data, many functions, many imports, and going over
/// the compressed size limit.
pub open spec fn expected_hints(a: WasmAnalysis) -> Seq<Hint> {
    custom_section_hints(a.custom_sections@)
        + hint_if(a.data_segment_size > 4096, Hint::LazyLoadData { size: a.data_segment_size })
        + hint_if(
        a.functions@.len() > 200,
        Hint::InlineHelpers { functions: a.functions@.len() as usize },
    ) + hint_if(a.imports@.len() > 30, Hint::ReviewImports { imports: a.imports@.len() as usize })
        + hint_if(
        estimated_compressed_size(a.file_size as nat) > MAX_COMPRESSED_WASM,
        Hint::OverCompressedLimit,
    )
}

/// Suggests optimizations for an analyzed binary.
pub fn optimization_hints(analysis: &WasmAnalysis) -> (hints: Vec<Hint>)
    ensures
        hints@ == expected_hints(*analysis),
{
    let mut hints: Vec<Hint> = Vec::new();
    let mut i: usize = 0;
    while i < analysis.custom_sections.len()
        invariant
            i <= analysis.custom_sections@.len(),
            hints@ == custom_section_hints(analysis.custom_sections@.take(i as int)),
        decreases analysis.custom_sections@.len() - i,
    {
        proof {
            assert(analysis.custom_sections@.take(i + 1).drop_last() =~= analysis.custom_sections@.take(i as int));
        }
        let entry = &analysis.custom_sections[i];
        if entry.1 > 1024 {
            hints.push(Hint::StripCustomSection { name: entry.0.clone(), size: entry.1 });
        }
        i = i + 1;
    }
    proof {
        assert(analysis.custom_sections@.take(i as int) =~= analysis.custom_sections@);
    }
    let ghost customs = hints@;
    if analysis.data_segment_size > 4096 {
        hints.push(Hint::LazyLoadData { size: analysis.data_segment_size });
    }
    let ghost with_data = hints@;
    let functions = analysis.total_functions();
    if functions > 200 {
        hints.push(Hint::InlineHelpers { functions });
    }
    let ghost with_functions = hints@;
    let imports = analysis.imports.len();
    if imports > 30 {
        hints.push(Hint::ReviewImports { imports });
    }
    let ghost with_imports = hints@;
    let limits = check_limits(analysis.file_size);
    if !limits.compressed_ok {
        hints.push(Hint::OverCompressedLimit);
    }
    proof {
        let a = *analysis;
        assert(with_data =~= customs + hint_if(a.data_segment_size > 4096, Hint::LazyLoadData { size: a.data_segment_size }));
        assert(with_functions =~= with_data + hint_if(
            a.functions@.len() > 200,
            Hint::InlineHelpers { functions: a.functions@.len() as usize },
        ));
        assert(with_imports =~= with_functions + hint_if(a.imports@.len() > 30, Hint::ReviewImports { imports: a.imports@.len() as usize }));
        assert(hints@ =~= with_imports + hint_if(
            estimated_compressed_size(a.file_size as nat) > MAX_COMPRESSED_WASM,
            Hint::OverCompressedLimit,
        ));
    }
    hints
}

/// Each hint for the custom sections asks to strip one custom section over
/// 1 KB, and each such section gets one.
pub proof fn lemma_custom_section_hints(sections: Seq<(String, usize)>)
    ensures
        forall|i: int| 0 <= i < custom_section_hints(sections).len() ==> exists|j: int|
            0 <= j < sections.len() && sections[j].1 > 1024 && #[trigger] custom_section_hints(sections)[i]
                == (Hint::StripCustomSection { name: sections[j].0, size: sections[j].1 }),
        forall|j: int| 0 <= j < sections.len() && (#[trigger] sections[j]).1 > 1024 ==> exists|i: int|
            0 <= i < custom_section_hints(sections).len() && custom_section_hints(sections)[i]
                == (Hint::StripCustomSection { name: sections[j].0, size: sections[j].1 }),
    decreases sections.len(),
{
    if sections.len() > 0 {
        let prev = sections.drop_last();
        lemma_custom_section_hints(prev);
        let h = custom_section_hints(sections);
        let hp = custom_section_hints(prev);
        let n = sections.len() - 1;
        assert forall|i: int| 0 <= i < h.len() implies exists|j: int|
            0 <= j < sections.len() && sections[j].1 > 1024 && #[trigger] h[i]
                == (Hint::StripCustomSection { name: sections[j].0, size: sections[j].1 }) by {
            if i < hp.len() {
                assert(h[i] == hp[i]);
                let j = choose|j: int| 0 <= j < prev.len() && prev[j].1 > 1024 && hp[i]
                    == (Hint::StripCustomSection { name: prev[j].0, size: prev[j].1 });
                assert(sections[j] == prev[j]);
            } else {
                assert(sections[n].1 > 1024);
            }
        }
        assert forall|j: int| 0 <= j < sections.len() && (#[trigger] sections[j]).1 > 1024 implies exists|i: int|
            0 <= i < h.len() && h[i] == (Hint::StripCustomSection { name: sections[j].0, size: sections[j].1 }) by {
            if j < n {
                assert(sections[j] == prev[j]);
                let i = choose|i: int| 0 <= i < hp.len() && hp[i]
                    == (Hint::StripCustomSection { name: prev[j].0, size: prev[j].1 });
                assert(h[i] == hp[i]);
            } else {
                assert(h[hp.len() as int] == (Hint::StripCustomSection { name: sections[j].0, size: sections[j].1 }));
            }
        }
    }
}

/// The hints follow their thresholds: inlining is suggested exactly when
/// the analysis has more than 200 functions, lazy-loading exactly when its
/// data passes 4 KB, reviewing imports exactly when it has more than 30,
/// and the compressed-limit warning exactly when a quarter of the binary
/// passes 24 KB, each with the count it was given; and every large custom
/// section, and only those, is to be stripped. So adding functions to an
/// analysis that has the inlining hint never takes it away.
pub proof fn lemma_hints_follow_thresholds(a: WasmAnalysis)
    ensures
        (exists|i: int| 0 <= i < expected_hints(a).len() && #[trigger] expected_hints(a)[i] is InlineHelpers)
            <==> a.functions@.len() > 200,
        (exists|i: int| 0 <= i < expected_hints(a).len() && #[trigger] expected_hints(a)[i] is LazyLoadData)
            <==> a.data_segment_size > 4096,
        (exists|i: int| 0 <= i < expected_hints(a).len() && #[trigger] expected_hints(a)[i] is ReviewImports)
            <==> a.imports@.len() > 30,
        (exists|i: int| 0 <= i < expected_hints(a).len() && #[trigger] expected_hints(a)[i] is OverCompressedLimit)
            <==> a.file_size / 4 > 24 * 1024,
        forall|i: int| 0 <= i < expected_hints(a).len() ==> {
            &&& (#[trigger] expected_hints(a)[i] matches Hint::InlineHelpers { functions } ==> functions == a.functions@.len())
            &&& (expected_hints(a)[i] matches Hint::LazyLoadData { size } ==> size == a.data_segment_size)
            &&& (expected_hints(a)[i] matches Hint::ReviewImports { imports } ==> imports == a.imports@.len())
            &&& (expected_hints(a)[i] matches Hint::StripCustomSection { name, size } ==> exists|j: int|
                0 <= j < a.custom_sections@.len() && size > 1024 && #[trigger] a.custom_sections@[j] == (name, size))
        },
        forall|j: int| 0 <= j < a.custom_sections@.len() && (#[trigger] a.custom_sections@[j]).1 > 1024 ==> exists|i: int|
            0 <= i < expected_hints(a).len() && expected_hints(a)[i] == (Hint::StripCustomSection {
                name: a.custom_sections@[j].0,
                size: a.custom_sections@[j].1,
            }),
{
    let cs = a.custom_sections@;
    assert(a.functions.len() == a.functions@.len());
    assert(a.imports.len() == a.imports@.len());
    lemma_custom_section_hints(cs);
    let ha = custom_section_hints(cs);
    let hb = hint_if(a.data_segment_size > 4096, Hint::LazyLoadData { size: a.data_segment_size });
    let hc = hint_if(a.functions@.len() > 200, Hint::InlineHelpers { functions: a.functions@.len() as usize });
    let hd = hint_if(a.imports@.len() > 30, Hint::ReviewImports { imports: a.imports@.len() as usize });
    let he = hint_if(estimated_compressed_size(a.file_size as nat) > MAX_COMPRESSED_WASM, Hint::OverCompressedLimit);
    let t = expected_hints(a);
    let rest = hb + hc + hd + he;
    assert(t =~= ha + rest);
    let la = ha.len() as int;
    assert forall|i: int| 0 <= i < la implies #[trigger] t[i] is StripCustomSection by {
        assert(t[i] == ha[i]);
        let j = choose|j: int| 0 <= j < cs.len() && cs[j].1 > 1024 && ha[i]
            == (Hint::StripCustomSection { name: cs[j].0, size: cs[j].1 });
    }
    // where each flag hint stands, when it is given
    let pb = la;
    let pc = pb + hb.len();
    let pd = pc + hc.len();
    let pe = pd + hd.len();
    assert(t.len() == pe + he.len());
    assert forall|i: int| pb <= i < t.len() implies {
        &&& (#[trigger] t[i] is LazyLoadData <==> (i == pb && hb.len() == 1))
        &&& (t[i] is InlineHelpers <==> (i == pc && hc.len() == 1))
        &&& (t[i] is ReviewImports <==> (i == pd && hd.len() == 1))
        &&& (t[i] is OverCompressedLimit <==> (i == pe && he.len() == 1))
        &&& !(t[i] is StripCustomSection)
    } by {
        assert(t[i] == rest[i - la]);
    }
    if hb.len() == 1 { assert(t[pb] is LazyLoadData); }
    if hc.len() == 1 { assert(t[pc] is InlineHelpers); }
    if hd.len() == 1 { assert(t[pd] is ReviewImports); }
    if he.len() == 1 { assert(t[pe] is OverCompressedLimit); }
    assert forall|i: int| 0 <= i < t.len() implies {
        &&& (#[trigger] t[i] matches Hint::InlineHelpers { functions } ==> functions == a.functions@.len())
        &&& (t[i] matches Hint::LazyLoadData { size } ==> size == a.data_segment_size)
        &&& (t[i] matches Hint::ReviewImports { imports } ==> imports == a.imports@.len())
        &&& (t[i] matches Hint::StripCustomSection { name, size } ==> exists|j: int|
            0 <= j < cs.len() && size > 1024 && #[trigger] cs[j] == (name, size))
    } by {
        if i < la {
            assert(t[i] == ha[i]);
            let j = choose|j: int| 0 <= j < cs.len() && cs[j].1 > 1024 && ha[i]
                == (Hint::StripCustomSection { name: cs[j].0, size: cs[j].1 });
            assert(cs[j] == (cs[j].0, cs[j].1));
        } else {
            assert(t[i] == rest[i - la]);
        }
    }
    assert forall|j: int| 0 <= j < cs.len() && (#[trigger] cs[j]).1 > 1024 implies exists|i: int|
        0 <= i < t.len() && t[i] == (Hint::StripCustomSection { name: cs[j].0, size: cs[j].1 }) by {
        let i = choose|i: int| 0 <= i < ha.len() && ha[i] == (Hint::StripCustomSection { name: cs[j].0, size: cs[j].1 });
        assert(t[i] == ha[i]);
    }
}

} // verus!
