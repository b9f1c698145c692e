//! The endpoints of each chain.
use vstd::prelude::*;

use crate::text::{holds, join, same_text, trim};

verus! {

/// The public endpoints of a chain, where it is known.
pub open spec fn default_endpoints(chain: Seq<char>) -> Option<Seq<Seq<char>>> {
    if chain == "bnb"@ {
        Some(
            seq![
                "https://bsc-dataseed.binance.org/"@,
                "https://bsc-dataseed1.defibit.io/"@,
                "https://bsc-dataseed1.ninicoin.io/"@,
                "https://rpc.ankr.com/bsc"@,
                "https://1rpc.io/bnb"@,
            ],
        )
    } else if chain == "ethereum"@ {
        Some(
            seq![
                "https://eth.llamarpc.com"@,
                "https://cloudflare-eth.com"@,
                "https://rpc.ankr.com/eth"@,
                "https://1rpc.io/eth"@,
            ],
        )
    } else if chain == "polygon"@ {
        Some(
            seq![
                "https://polygon-rpc.com"@,
                "https://rpc.ankr.com/polygon"@,
                "https://1rpc.io/matic"@,
            ],
        )
    } else if chain == "arbitrum"@ {
        Some(
            seq![
                "https://arb1.arbitrum.io/rpc"@,
                "https://rpc.ankr.com/arbitrum"@,
                "https://1rpc.io/arb"@,
            ],
        )
    } else if chain == "base"@ {
        Some(
            seq![
                "https://mainnet.base.org"@,
                "https://base.llamarpc.com"@,
                "https://1rpc.io/base"@,
            ],
        )
    } else if chain == "optimism"@ {
        Some(
            seq![
                "https://mainnet.optimism.io"@,
                "https://optimism.llamarpc.com"@,
                "https://1rpc.io/op"@,
            ],
        )
    } else if chain == "avalanche_c"@ {
        Some(
            seq![
                "https://api.avax.network/ext/bc/C/rpc"@,
                "https://rpc.ankr.com/avalanche"@,
                "https://1rpc.io/avax/c"@,
            ],
        )
    } else {
        None
    }
}

/// An endpoint of the user's own, as a row of none or one: white space around it does not
/// count, and nothing is left of it where it is nothing else.
pub open spec fn custom_endpoint(custom: Option<Seq<char>>) -> Seq<Seq<char>> {
    match custom {
        Some(url) => if crate::text::trimmed(url).len() > 0 {
            seq![crate::text::trimmed(url)]
        } else {
            Seq::empty()
        },
        None => Seq::empty(),
    }
}

/// The endpoints of a chain: the user's own first, then the public ones that it is not.
pub open spec fn endpoints_of(chain: Seq<char>, custom: Option<Seq<char>>) -> Result<
    Seq<Seq<char>>,
    Seq<char>,
> {
    match default_endpoints(chain) {
        Some(defaults) => Ok(crate::text::with_texts(custom_endpoint(custom), defaults)),
        None => Err("Unsupported chain: "@ + chain),
    }
}

/// An optional text as mathematics.
pub open spec fn text_view(text: Option<&str>) -> Option<Seq<char>> {
    match text {
        Some(s) => Some(s@),
        None => None,
    }
}

/// The public endpoints of a chain, where it is known.
fn defaults(chain: &str) -> (r: Option<Vec<&'static str>>)
    ensures
        match (default_endpoints(chain@), r) {
            (Some(urls), Some(list)) => list@.map_values(|s: &str| s@) == urls,
            (None, None) => true,
            _ => false,
        },
{
    let list: Vec<&'static str> = if same_text(chain, "bnb") {
        vec![
            "https://bsc-dataseed.binance.org/",
            "https://bsc-dataseed1.defibit.io/",
            "https://bsc-dataseed1.ninicoin.io/",
            "https://rpc.ankr.com/bsc",
            "https://1rpc.io/bnb",
        ]
    } else if same_text(chain, "ethereum") {
        vec![
            "https://eth.llamarpc.com",
            "https://cloudflare-eth.com",
            "https://rpc.ankr.com/eth",
            "https://1rpc.io/eth",
        ]
    } else if same_text(chain, "polygon") {
        vec![
            "https://polygon-rpc.com",
            "https://rpc.ankr.com/polygon",
            "https://1rpc.io/matic",
        ]
    } else if same_text(chain, "arbitrum") {
        vec![
            "https://arb1.arbitrum.io/rpc",
            "https://rpc.ankr.com/arbitrum",
            "https://1rpc.io/arb",
        ]
    } else if same_text(chain, "base") {
        vec![
            "https://mainnet.base.org",
            "https://base.llamarpc.com",
            "https://1rpc.io/base",
        ]
    } else if same_text(chain, "optimism") {
        vec![
            "https://mainnet.optimism.io",
            "https://optimism.llamarpc.com",
            "https://1rpc.io/op",
        ]
    } else if same_text(chain, "avalanche_c") {
        vec![
            "https://api.avax.network/ext/bc/C/rpc",
            "https://rpc.ankr.com/avalanche",
            "https://1rpc.io/avax/c",
        ]
    } else {
        return None;
    };
    assert(list@.map_values(|s: &str| s@) =~= default_endpoints(chain@)->0);
    Some(list)
}

/// The endpoints of a chain, in the order in which they are tried.
pub fn get_rpc_list(chain: &str, custom_rpc: Option<&str>) -> (r: Result<Vec<String>, String>)
    ensures
        match (endpoints_of(chain@, text_view(custom_rpc)), r) {
            (Ok(urls), Ok(list)) => crate::text::texts(list@) == urls,
            (Err(error), Err(text)) => text@ == error,
            _ => false,
        },
{
    let mut rpc_list: Vec<String> = Vec::new();
    if let Some(custom) = custom_rpc {
        let custom = trim(custom);
        if !custom.is_empty() {
            rpc_list.push(custom.to_owned());
        }
    }
    let ghost own = custom_endpoint(text_view(custom_rpc));
    assert(crate::text::texts(rpc_list@) =~= own);
    let defaults = match defaults(chain) {
        Some(list) => list,
        None => {
            return Err(join("Unsupported chain: ", chain));
        },
    };
    let ghost urls = default_endpoints(chain@)->0;
    assert(urls.take(0) =~= Seq::<Seq<char>>::empty());
    let mut i: usize = 0;
    while i < defaults.len()
        invariant
            i <= defaults.len(),
            defaults@.map_values(|s: &str| s@) == urls,
            crate::text::texts(rpc_list@) == crate::text::with_texts(own, urls.take(i as int)),
        decreases defaults.len() - i,
    {
        let rpc = defaults[i];
        let ghost before = crate::text::texts(rpc_list@);
        if !holds(&rpc_list, rpc) {
            rpc_list.push(rpc.to_owned());
            assert(crate::text::texts(rpc_list@) =~= before.push(rpc@));
        }
        proof {
            let taken = urls.take(i + 1);
            assert(taken.drop_last() =~= urls.take(i as int));
            assert(taken.last() == urls[i as int]);
            assert(urls[i as int] == defaults@[i as int]@);
        }
        i = i + 1;
    }
    assert(urls.take(urls.len() as int) =~= urls);
    Ok(rpc_list)
}

/// A chain that is known has endpoints, no endpoint is listed twice, the user's own comes
/// first, every public one is listed, and there are no others.
pub proof fn endpoints_are_listed_once(chain: Seq<char>, custom: Option<Seq<char>>)
    requires
        default_endpoints(chain) is Some,
    ensures
        ({
            let defaults = default_endpoints(chain)->0;
            let own = custom_endpoint(custom);
            &&& endpoints_of(chain, custom) matches Ok(urls)
            &&& urls.len() >= 1
            &&& urls.no_duplicates()
            &&& urls.take(own.len() as int) == own
            &&& forall|u: Seq<char>|
                #[trigger] urls.contains(u) <==> own.contains(u) || defaults.contains(u)
        }),
{
    let defaults = default_endpoints(chain)->0;
    let own = custom_endpoint(custom);
    let urls = crate::text::with_texts(own, defaults);
    crate::text::each_text_is_kept_once(own, defaults);
    crate::text::first_texts_stay_in_front(own, defaults);
    assert(defaults.contains(defaults[0]));
    assert(urls.contains(defaults[0]));
}

/// No public endpoint of a chain is listed twice.
proof fn lemma_public_endpoints_differ(chain: Seq<char>)
    requires
        default_endpoints(chain) is Some,
    ensures
        default_endpoints(chain)->0.no_duplicates(),
{
    if chain == "bnb"@ {
        reveal_strlit("https://bsc-dataseed.binance.org/");
        reveal_strlit("https://bsc-dataseed1.defibit.io/");
        reveal_strlit("https://bsc-dataseed1.ninicoin.io/");
        reveal_strlit("https://rpc.ankr.com/bsc");
        reveal_strlit("https://1rpc.io/bnb");
        assert("https://bsc-dataseed.binance.org/"@[20] != "https://bsc-dataseed1.defibit.io/"@[20]);
        assert("https://bsc-dataseed.binance.org/"@.len() == 33 && "https://bsc-dataseed1.ninicoin.io/"@.len() == 34);
        assert("https://bsc-dataseed.binance.org/"@.len() == 33 && "https://rpc.ankr.com/bsc"@.len() == 24);
        assert("https://bsc-dataseed.binance.org/"@.len() == 33 && "https://1rpc.io/bnb"@.len() == 19);
        assert("https://bsc-dataseed1.defibit.io/"@.len() == 33 && "https://bsc-dataseed1.ninicoin.io/"@.len() == 34);
        assert("https://bsc-dataseed1.defibit.io/"@.len() == 33 && "https://rpc.ankr.com/bsc"@.len() == 24);
        assert("https://bsc-dataseed1.defibit.io/"@.len() == 33 && "https://1rpc.io/bnb"@.len() == 19);
        assert("https://bsc-dataseed1.ninicoin.io/"@.len() == 34 && "https://rpc.ankr.com/bsc"@.len() == 24);
        assert("https://bsc-dataseed1.ninicoin.io/"@.len() == 34 && "https://1rpc.io/bnb"@.len() == 19);
        assert("https://rpc.ankr.com/bsc"@.len() == 24 && "https://1rpc.io/bnb"@.len() == 19);
    } else if chain == "ethereum"@ {
        reveal_strlit("https://eth.llamarpc.com");
        reveal_strlit("https://cloudflare-eth.com");
        reveal_strlit("https://rpc.ankr.com/eth");
        reveal_strlit("https://1rpc.io/eth");
        assert("https://eth.llamarpc.com"@.len() == 24 && "https://cloudflare-eth.com"@.len() == 26);
        assert("https://eth.llamarpc.com"@[8] != "https://rpc.ankr.com/eth"@[8]);
        assert("https://eth.llamarpc.com"@.len() == 24 && "https://1rpc.io/eth"@.len() == 19);
        assert("https://cloudflare-eth.com"@.len() == 26 && "https://rpc.ankr.com/eth"@.len() == 24);
        assert("https://cloudflare-eth.com"@.len() == 26 && "https://1rpc.io/eth"@.len() == 19);
        assert("https://rpc.ankr.com/eth"@.len() == 24 && "https://1rpc.io/eth"@.len() == 19);
    } else if chain == "polygon"@ {
        reveal_strlit("https://polygon-rpc.com");
        reveal_strlit("https://rpc.ankr.com/polygon");
        reveal_strlit("https://1rpc.io/matic");
        assert("https://polygon-rpc.com"@.len() == 23 && "https://rpc.ankr.com/polygon"@.len() == 28);
        assert("https://polygon-rpc.com"@.len() == 23 && "https://1rpc.io/matic"@.len() == 21);
        assert("https://rpc.ankr.com/polygon"@.len() == 28 && "https://1rpc.io/matic"@.len() == 21);
    } else if chain == "arbitrum"@ {
        reveal_strlit("https://arb1.arbitrum.io/rpc");
        reveal_strlit("https://rpc.ankr.com/arbitrum");
        reveal_strlit("https://1rpc.io/arb");
        assert("https://arb1.arbitrum.io/rpc"@.len() == 28 && "https://rpc.ankr.com/arbitrum"@.len() == 29);
        assert("https://arb1.arbitrum.io/rpc"@.len() == 28 && "https://1rpc.io/arb"@.len() == 19);
        assert("https://rpc.ankr.com/arbitrum"@.len() == 29 && "https://1rpc.io/arb"@.len() == 19);
    } else if chain == "base"@ {
        reveal_strlit("https://mainnet.base.org");
        reveal_strlit("https://base.llamarpc.com");
        reveal_strlit("https://1rpc.io/base");
        assert("https://mainnet.base.org"@.len() == 24 && "https://base.llamarpc.com"@.len() == 25);
        assert("https://mainnet.base.org"@.len() == 24 && "https://1rpc.io/base"@.len() == 20);
        assert("https://base.llamarpc.com"@.len() == 25 && "https://1rpc.io/base"@.len() == 20);
    } else if chain == "optimism"@ {
        reveal_strlit("https://mainnet.optimism.io");
        reveal_strlit("https://optimism.llamarpc.com");
        reveal_strlit("https://1rpc.io/op");
        assert("https://mainnet.optimism.io"@.len() == 27 && "https://optimism.llamarpc.com"@.len() == 29);
        assert("https://mainnet.optimism.io"@.len() == 27 && "https://1rpc.io/op"@.len() == 18);
        assert("https://optimism.llamarpc.com"@.len() == 29 && "https://1rpc.io/op"@.len() == 18);
    } else if chain == "avalanche_c"@ {
        reveal_strlit("https://api.avax.network/ext/bc/C/rpc");
        reveal_strlit("https://rpc.ankr.com/avalanche");
        reveal_strlit("https://1rpc.io/avax/c");
        assert("https://api.avax.network/ext/bc/C/rpc"@.len() == 37 && "https://rpc.ankr.com/avalanche"@.len() == 30);
        assert("https://api.avax.network/ext/bc/C/rpc"@.len() == 37 && "https://1rpc.io/avax/c"@.len() == 22);
        assert("https://rpc.ankr.com/avalanche"@.len() == 30 && "https://1rpc.io/avax/c"@.len() == 22);
    }
}

/// Without an endpoint of the user's own, a chain has its public ones, in this order, and a
/// chain that is not among these has none, whether there is one of the user's own or not.
pub proof fn each_chain_has_its_endpoints(chain: Seq<char>, custom: Option<Seq<char>>)
    ensures
        chain == "bnb"@ ==> endpoints_of(chain, None) == Ok::<Seq<Seq<char>>, Seq<char>>(
            seq![
                "https://bsc-dataseed.binance.org/"@,
                "https://bsc-dataseed1.defibit.io/"@,
                "https://bsc-dataseed1.ninicoin.io/"@,
                "https://rpc.ankr.com/bsc"@,
                "https://1rpc.io/bnb"@,
            ],
        ),
        chain == "ethereum"@ ==> endpoints_of(chain, None) == Ok::<Seq<Seq<char>>, Seq<char>>(
            seq![
                "https://eth.llamarpc.com"@,
                "https://cloudflare-eth.com"@,
                "https://rpc.ankr.com/eth"@,
                "https://1rpc.io/eth"@,
            ],
        ),
        chain == "polygon"@ ==> endpoints_of(chain, None) == Ok::<Seq<Seq<char>>, Seq<char>>(
            seq![
                "https://polygon-rpc.com"@,
                "https://rpc.ankr.com/polygon"@,
                "https://1rpc.io/matic"@,
            ],
        ),
        chain == "arbitrum"@ ==> endpoints_of(chain, None) == Ok::<Seq<Seq<char>>, Seq<char>>(
            seq![
                "https://arb1.arbitrum.io/rpc"@,
                "https://rpc.ankr.com/arbitrum"@,
                "https://1rpc.io/arb"@,
            ],
        ),
        chain == "base"@ ==> endpoints_of(chain, None) == Ok::<Seq<Seq<char>>, Seq<char>>(
            seq![
                "https://mainnet.base.org"@,
                "https://base.llamarpc.com"@,
                "https://1rpc.io/base"@,
            ],
        ),
        chain == "optimism"@ ==> endpoints_of(chain, None) == Ok::<Seq<Seq<char>>, Seq<char>>(
            seq![
                "https://mainnet.optimism.io"@,
                "https://optimism.llamarpc.com"@,
                "https://1rpc.io/op"@,
            ],
        ),
        chain == "avalanche_c"@ ==> endpoints_of(chain, None) == Ok::<Seq<Seq<char>>, Seq<char>>(
            seq![
                "https://api.avax.network/ext/bc/C/rpc"@,
                "https://rpc.ankr.com/avalanche"@,
                "https://1rpc.io/avax/c"@,
            ],
        ),
        chain != "bnb"@ && chain != "ethereum"@ && chain != "polygon"@ && chain != "arbitrum"@ && chain != "base"@ && chain != "optimism"@ && chain != "avalanche_c"@ ==> endpoints_of(chain, custom) == Err::<Seq<Seq<char>>, Seq<char>>(
            "Unsupported chain: "@ + chain,
        ),
{
    reveal_strlit("bnb");
    reveal_strlit("ethereum");
    reveal_strlit("polygon");
    reveal_strlit("arbitrum");
    reveal_strlit("base");
    reveal_strlit("optimism");
    reveal_strlit("avalanche_c");
    assert("bnb"@.len() == 3 && "ethereum"@.len() == 8);
    assert("bnb"@.len() == 3 && "polygon"@.len() == 7);
    assert("bnb"@.len() == 3 && "arbitrum"@.len() == 8);
    assert("bnb"@.len() == 3 && "base"@.len() == 4);
    assert("bnb"@.len() == 3 && "optimism"@.len() == 8);
    assert("bnb"@.len() == 3 && "avalanche_c"@.len() == 11);
    assert("ethereum"@.len() == 8 && "polygon"@.len() == 7);
    assert("ethereum"@[0] != "arbitrum"@[0]);
    assert("ethereum"@.len() == 8 && "base"@.len() == 4);
    assert("ethereum"@[0] != "optimism"@[0]);
    assert("ethereum"@.len() == 8 && "avalanche_c"@.len() == 11);
    assert("polygon"@.len() == 7 && "arbitrum"@.len() == 8);
    assert("polygon"@.len() == 7 && "base"@.len() == 4);
    assert("polygon"@.len() == 7 && "optimism"@.len() == 8);
    assert("polygon"@.len() == 7 && "avalanche_c"@.len() == 11);
    assert("arbitrum"@.len() == 8 && "base"@.len() == 4);
    assert("arbitrum"@[0] != "optimism"@[0]);
    assert("arbitrum"@.len() == 8 && "avalanche_c"@.len() == 11);
    assert("base"@.len() == 4 && "optimism"@.len() == 8);
    assert("base"@.len() == 4 && "avalanche_c"@.len() == 11);
    assert("optimism"@.len() == 8 && "avalanche_c"@.len() == 11);
    if default_endpoints(chain) is Some {
        lemma_public_endpoints_differ(chain);
        let defaults = default_endpoints(chain)->0;
        let none = Seq::<Seq<char>>::empty();
        crate::text::different_texts_are_kept_as_they_came(none, defaults);
        assert(none + defaults =~= defaults);
    }
}

/// An endpoint of the user's own, without the white space around it, comes before the public
/// ones, which stay as they are but for this one, if it is one of them; nothing but white
/// space is no endpoint.
pub proof fn an_own_endpoint_comes_before_the_public_ones(
    chain: Seq<char>,
    own: Seq<char>,
    public: Seq<Seq<char>>,
    k: int,
)
    requires
        endpoints_of(chain, None) == Ok::<Seq<Seq<char>>, Seq<char>>(public),
    ensures
        ({
            let url = crate::text::trimmed(own);
            let urls = endpoints_of(chain, Some(own));
            &&& url.len() == 0 ==> urls == Ok::<Seq<Seq<char>>, Seq<char>>(public)
            &&& url.len() > 0 && !public.contains(url) ==> urls == Ok::<Seq<Seq<char>>, Seq<char>>(
                seq![url] + public,
            )
            &&& url.len() > 0 && 0 <= k < public.len() && public[k] == url ==> urls == Ok::<
                Seq<Seq<char>>,
                Seq<char>,
            >(seq![url] + public.take(k) + public.skip(k + 1))
        }),
{
    lemma_public_endpoints_differ(chain);
    let defaults = default_endpoints(chain)->0;
    let none = Seq::<Seq<char>>::empty();
    crate::text::different_texts_are_kept_as_they_came(none, defaults);
    assert(none + defaults =~= defaults);
    assert(public == defaults);
    let url = crate::text::trimmed(own);
    let list = seq![url];
    if url.len() > 0 && !public.contains(url) {
        assert forall|i: int| 0 <= i < public.len() implies !list.contains(#[trigger] public[i]) by {
            assert(public.contains(public[i]));
        }
        crate::text::different_texts_are_kept_as_they_came(list, public);
    }
    if url.len() > 0 && 0 <= k < public.len() && public[k] == url {
        let front = public.take(k);
        let back = public.skip(k + 1);
        assert(list[0] == url);
        assert(front.push(url) + back =~= public);
        crate::text::a_text_that_is_there_changes_nothing(list, front, url, back);
        let others = front + back;
        assert forall|i: int| 0 <= i < others.len() implies !list.contains(#[trigger] others[i]) by {
            if i < k {
                assert(others[i] == public[i]);
            } else {
                assert(others[i] == public[i + 1]);
            }
        }
        assert(others.no_duplicates()) by {
            assert forall|i: int, j: int|
                0 <= i < others.len() && 0 <= j < others.len() && i != j implies others[i]
                != others[j] by {
                let a = if i < k {
                    i
                } else {
                    i + 1
                };
                let b = if j < k {
                    j
                } else {
                    j + 1
                };
                assert(others[i] == public[a] && others[j] == public[b]);
            }
        }
        crate::text::different_texts_are_kept_as_they_came(list, others);
        assert(list + others =~= list + front + back);
    }
}

/// An optional text is taken to the character.
pub proof fn optional_texts_are_taken_as_they_are(text: &str)
    ensures
        text_view(Some(text)) == Some(text@),
        text_view(None) is None,
{
}

} // verus!
