//! The recursion of the tracer and the two loops inside it: over the
//! objects a ray may hit, and over the lamps that may light a point.

use vstd::prelude::*;
use crate::scene::SceneOptions;
use crate::utils::rgb::RGB;

verus! {

/// What `find` may report of a ray, as a relation between the ray and the
/// report.
pub open spec fn finds<R, H, F: Fn(R) -> Option<(H, R, R)>>(find: F) -> spec_fn(
    R,
    Option<(H, R, R)>,
) -> bool {
    |ray: R, found: Option<(H, R, R)>| call_ensures(find, (ray,), found)
}

/// What `shade` may make of a hit and the two colours brought back to it,
/// as a relation between those three and the colour.
pub open spec fn shades<H, S: Fn(H, RGB, RGB) -> RGB>(shade: S) -> spec_fn(
    H,
    RGB,
    RGB,
    RGB,
) -> bool {
    |hit: H, mirrored: RGB, bent: RGB, color: RGB| call_ensures(shade, (hit, mirrored, bent), color)
}

/// `color` is what a ray traced at `depth` may come to.
///
/// Past the limit it is the background. Up to the limit it is the
/// background where no hit is found for the ray; where a hit is found,
/// with its reflected and refracted rays, it is what the hit is shaded to
/// with the two colours that those rays, traced one level deeper, come to.
pub open spec fn traced<R, H>(
    options: SceneOptions,
    found: spec_fn(R, Option<(H, R, R)>) -> bool,
    shaded: spec_fn(H, RGB, RGB, RGB) -> bool,
    ray: R,
    depth: nat,
    color: RGB,
) -> bool
    decreases options.reflections_limit + 1 - depth,
{
    if depth > options.reflections_limit {
        color == options.background_color
    } else {
        ||| found(ray, None) && color == options.background_color
        ||| exists|hit: H, reflected: R, refracted: R, mirrored: RGB, bent: RGB|
            {
                &&& #[trigger] found(ray, Some((hit, reflected, refracted)))
                &&& traced(options, found, shaded, reflected, depth + 1, mirrored)
                &&& traced(options, found, shaded, refracted, depth + 1, bent)
                &&& #[trigger] shaded(hit, mirrored, bent, color)
            }
    }
}

/// `find` may be asked about every ray and `shade` about every hit.
pub open spec fn traceable<R, H, F: Fn(R) -> Option<(H, R, R)>, S: Fn(H, RGB, RGB) -> RGB>(
    find: F,
    shade: S,
) -> bool {
    &&& forall|ray: R| call_requires(find, (ray,))
    &&& forall|hit: H, mirrored: RGB, bent: RGB| call_requires(shade, (hit, mirrored, bent))
}

/// Traces one ray.
///
/// `find` looks for what the ray hits and, for a hit, also gives the
/// reflected and the refracted ray that leave it. `shade` gives the colour
/// of a hit from the colours that those two rays brought back. Past the
/// limit of `options` the background colour is returned at once: neither
/// function is called, so nothing is asked of them there.
pub fn trace<R, H, F: Fn(R) -> Option<(H, R, R)>, S: Fn(H, RGB, RGB) -> RGB>(
    options: &SceneOptions,
    find: &F,
    shade: &S,
    ray: R,
    depth: usize,
) -> (color: RGB)
    requires
        depth <= options.reflections_limit ==> traceable(*find, *shade),
    ensures
        traced(*options, finds(*find), shades(*shade), ray, depth as nat, color),
        depth > options.reflections_limit ==> color == options.background_color,
    decreases options.reflections_limit + 1 - depth,
{
    if depth > options.reflections_limit {
        return options.background_color;
    }
    match find(ray) {
        None => options.background_color,
        Some((hit, reflected, refracted)) => {
            let (mirrored, bent) = if depth < options.reflections_limit {
                (
                    trace(options, find, shade, reflected, depth + 1),
                    trace(options, find, shade, refracted, depth + 1),
                )
            } else {
                (options.background_color, options.background_color)
            };
            let color = shade(hit, mirrored, bent);
            proof {
                let found = finds(*find);
                let shaded = shades(*shade);
                assert(traced(*options, found, shaded, reflected, (depth + 1) as nat, mirrored));
                assert(traced(*options, found, shaded, refracted, (depth + 1) as nat, bent));
                assert(found(ray, Some((hit, reflected, refracted))));
                assert(shaded(hit, mirrored, bent, color));
            }
            color
        },
    }
}

/// Asks `probe` about the candidates 0, 1, 2, ... below `count` in turn
/// and stops at the first for which it reports a hit: the order of the
/// candidates decides between two that are both hit.
pub fn first_hit<T, F: Fn(usize) -> Option<T>>(count: usize, probe: &F) -> (found: Option<(usize, T)>)
    requires
        forall|candidate: usize| candidate < count ==> call_requires(*probe, (candidate,)),
    ensures
        match found {
            Some((winner, hit)) => {
                &&& winner < count
                &&& call_ensures(*probe, (winner,), Some(hit))
                &&& forall|earlier: usize| earlier < winner ==> call_ensures(*probe, (earlier,), None)
            },
            None => forall|candidate: usize| candidate < count ==> call_ensures(*probe, (candidate,), None),
        },
{
    let mut candidate: usize = 0;
    while candidate < count
        invariant
            candidate <= count,
            forall|c: usize| c < count ==> call_requires(*probe, (c,)),
            forall|earlier: usize| earlier < candidate ==> call_ensures(*probe, (earlier,), None),
        decreases count - candidate,
    {
        match probe(candidate) {
            Some(hit) => {
                return Some((candidate, hit));
            },
            None => {},
        }
        candidate += 1;
    }
    None
}

/// What `hidden` may say of a lamp, as a relation between the lamp and the
/// answer.
pub open spec fn hides<O: Fn(usize) -> bool>(hidden: O) -> spec_fn(usize, bool) -> bool {
    |lamp: usize, answer: bool| call_ensures(hidden, (lamp,), answer)
}

/// What `join` may make of the light gathered so far and one more lamp, as
/// a relation between those two and the light after it.
pub open spec fn joins<A, G: Fn(A, usize) -> A>(join: G) -> spec_fn(A, usize, A) -> bool {
    |before: A, lamp: usize, after: A| call_ensures(join, (before, lamp), after)
}

/// What one lamp does to the light gathered so far: nothing where it is
/// hidden, and what it is joined to where it is not.
pub open spec fn lamp_step<A>(
    hidden: spec_fn(usize, bool) -> bool,
    joined: spec_fn(A, usize, A) -> bool,
    lamp: usize,
    before: A,
    after: A,
) -> bool {
    ||| hidden(lamp, true) && after == before
    ||| hidden(lamp, false) && joined(before, lamp, after)
}

/// `light` is what `dark` may grow to when the lamps of `lamps` are gone
/// through from first to last.
pub open spec fn gathered<A>(
    hidden: spec_fn(usize, bool) -> bool,
    joined: spec_fn(A, usize, A) -> bool,
    lamps: Seq<usize>,
    dark: A,
    light: A,
) -> bool
    decreases lamps.len(),
{
    if lamps.len() == 0 {
        light == dark
    } else {
        exists|before: A|
            gathered(hidden, joined, lamps.drop_last(), dark, before) && #[trigger] lamp_step(
                hidden,
                joined,
                lamps.last(),
                before,
                light,
            )
    }
}

/// The lamps 0, 1, 2, ... below `count`.
pub open spec fn lamps_below(count: nat) -> Seq<usize> {
    Seq::new(count, |lamp: int| lamp as usize)
}

/// A lamp that is hidden adds nothing: where one lamp is never reported
/// as in sight, the same light is gathered with it and without it.
pub proof fn lemma_hidden_lamp_adds_nothing<A>(
    hidden: spec_fn(usize, bool) -> bool,
    joined: spec_fn(A, usize, A) -> bool,
    lamps: Seq<usize>,
    which: int,
    dark: A,
    light: A,
)
    requires
        0 <= which < lamps.len(),
        !hidden(lamps[which], false),
        gathered(hidden, joined, lamps, dark, light),
    ensures
        gathered(hidden, joined, lamps.remove(which), dark, light),
    decreases lamps.len(),
{
    let before = choose|before: A|
        gathered(hidden, joined, lamps.drop_last(), dark, before) && #[trigger] lamp_step(
            hidden,
            joined,
            lamps.last(),
            before,
            light,
        );
    if which == lamps.len() - 1 {
        assert(lamps.remove(which) =~= lamps.drop_last());
    } else {
        lemma_hidden_lamp_adds_nothing(hidden, joined, lamps.drop_last(), which, dark, before);
        let rest = lamps.remove(which);
        assert(rest.drop_last() =~= lamps.drop_last().remove(which));
        assert(rest.last() == lamps.last());
    }
}

/// Where no lamp is ever reported as in sight, nothing is gathered.
pub proof fn lemma_all_hidden_is_dark<A>(
    hidden: spec_fn(usize, bool) -> bool,
    joined: spec_fn(A, usize, A) -> bool,
    lamps: Seq<usize>,
    dark: A,
    light: A,
)
    requires
        forall|k: int| 0 <= k < lamps.len() ==> !hidden(#[trigger] lamps[k], false),
        gathered(hidden, joined, lamps, dark, light),
    ensures
        light == dark,
    decreases lamps.len(),
{
    if lamps.len() > 0 {
        let before = choose|before: A|
            gathered(hidden, joined, lamps.drop_last(), dark, before) && #[trigger] lamp_step(
                hidden,
                joined,
                lamps.last(),
                before,
                light,
            );
        assert forall|k: int| 0 <= k < lamps.drop_last().len() implies !hidden(
            #[trigger] lamps.drop_last()[k],
            false,
        ) by {
            assert(lamps.drop_last()[k] == lamps[k]);
        }
        lemma_all_hidden_is_dark(hidden, joined, lamps.drop_last(), dark, before);
        assert(lamps.last() == lamps[lamps.len() - 1]);
    }
}

/// Gathers the light that reaches a point from `count` lamps.
///
/// The lamps are gone through in turn. `hidden` says of each whether
/// something stands between it and the point; a lamp that is hidden is
/// passed over, and `join` joins each other to what was gathered
/// before it.
pub fn gather_light<A, O: Fn(usize) -> bool, G: Fn(A, usize) -> A>(
    count: usize,
    hidden: &O,
    join: &G,
    dark: A,
) -> (light: A)
    requires
        forall|lamp: usize| lamp < count ==> call_requires(*hidden, (lamp,)),
        forall|so_far: A, lamp: usize| lamp < count ==> call_requires(*join, (so_far, lamp)),
    ensures
        gathered(hides(*hidden), joins(*join), lamps_below(count as nat), dark, light),
{
    let mut light = dark;
    let mut lamp: usize = 0;
    while lamp < count
        invariant
            lamp <= count,
            forall|l: usize| l < count ==> call_requires(*hidden, (l,)),
            forall|so_far: A, l: usize| l < count ==> call_requires(*join, (so_far, l)),
            gathered(hides(*hidden), joins(*join), lamps_below(lamp as nat), dark, light),
        decreases count - lamp,
    {
        let ghost before = light;
        if !hidden(lamp) {
            light = join(light, lamp);
        }
        proof {
            let longer = lamps_below((lamp + 1) as nat);
            assert(longer.drop_last() =~= lamps_below(lamp as nat));
            assert(longer.last() == lamp);
            assert(lamp_step(hides(*hidden), joins(*join), lamp, before, light));
        }
        lamp += 1;
    }
    light
}

} // verus!
