# cuda_atp_market

Energy economy for agent fleets: energy budgets, a trust-weighted double
auction, circadian modulation of energy generation, an apoptosis protocol
and a shared fleet energy pool.

All quantities of the economy (energy, prices, trust, phases) are
floating-point numbers. The verified library in `src/` holds the decisions
that do not depend on floating-point arithmetic; `app/` holds the
floating-point side and calls the library for those decisions.

- `src/circadian.rs`: the circadian state of a phase located by its eighth
  of the cycle (midnight Resting, dawn Awake, noon Active, wind-down Tiring
  up to and including dusk at 0.75, night after it); the normalised period.
- `src/apoptosis.rs`: the tiered shutdown decision and its escalation laws;
  the neighbourhood veto; the ordered graceful shutdown sequence.
- `src/market.rs`: where a new buy or sell order enters the order book, and
  the laws that, for every book in priority order (buys first, by effective
  price descending, then sells ascending), placing a buy or a sell keeps it
  in priority order; removal of the orders that took part in a trade, which
  keeps a book in priority order too.
- `app/`: energy budgets, effective prices and market clearing, circadian
  trigonometry, threshold comparisons and the fleet pool.
